//! The persistence gateway: an in-memory station store and its query
//! primitives.
//!
//! The store holds the rows of the last successful ingestion run and is
//! replaced wholesale by the next one — there is no update-in-place, so a
//! reader observes either the complete prior dataset or the complete new
//! one. [`Search`] offers the query primitives the search engine builds
//! on: listing, case-insensitive name substring match across the display
//! name and every localized info field, exact lookup by UIC code, and a
//! rectangular bounding-box prefilter over the coordinates.
//!
//! A record whose UIC code is empty cannot be addressed by callers and is
//! left out of every list and search result, though it is stored.

use vstd::prelude::*;

use crate::station::StationModel;
use crate::station::StationRecord;
use crate::station::models;
use crate::station::opt_bytes;

verus! {

/// Half-width of the bounding-box prefilter, in microdegrees: one degree,
/// roughly 100 km at the equator and coarser away from it. A deliberate,
/// documented approximation — the box is a cheap candidate filter, not a
/// radius; callers re-rank by true distance.
pub const APPROXIMATE_DISTANCE: i64 = 1000000;

/// What the persistence gateway can report instead of rows.
#[derive(Debug)]
pub enum DbError {
    /// A failure with no further description.
    UnknownError,
    /// The storage layer failed, with its message.
    Database(Vec<u8>),
    /// No row carries the requested key; a normal outcome, not a fault.
    RecordNotFound(Vec<u8>),
}

/// ASCII lowercase folding of one byte.
pub open spec fn lower_byte(b: u8) -> u8 {
    if 65 <= b <= 90 {
        (b + 32) as u8
    } else {
        b
    }
}

/// ASCII lowercase folding of a byte string.
pub open spec fn lower(s: Seq<u8>) -> Seq<u8> {
    s.map_values(|b: u8| lower_byte(b))
}

/// `needle` occurs in `hay` starting at `i`.
pub open spec fn match_at(hay: Seq<u8>, needle: Seq<u8>, i: int) -> bool {
    0 <= i && i + needle.len() <= hay.len() && hay.subrange(i, i + needle.len()) == needle
}

/// `needle` occurs somewhere in `hay`.
pub open spec fn contains_sub(hay: Seq<u8>, needle: Seq<u8>) -> bool {
    exists|i: int| match_at(hay, needle, i)
}

/// `needle` occurs in `hay`, compared with ASCII case folded.
pub open spec fn contains_ci(hay: Seq<u8>, needle: Seq<u8>) -> bool {
    contains_sub(lower(hay), lower(needle))
}

/// An optional field is present and matches the pattern, case folded.
pub open spec fn opt_ci_match(o: Option<Seq<u8>>, pat: Seq<u8>) -> bool {
    o is Some && contains_ci(o.unwrap(), pat)
}

/// The station matches the name pattern: a case-insensitive substring
/// match against the display name or any localized info field.
pub open spec fn model_matches(m: StationModel, pat: Seq<u8>) -> bool {
    contains_ci(m.name, pat) || exists|j: int|
        0 <= j < m.info.len() && opt_ci_match(#[trigger] m.info[j], pat)
}

/// The station has both coordinates and they fall in the square of
/// half-width `w` microdegrees around `(lat, lon)`.
pub open spec fn in_box(m: StationModel, lat: int, lon: int, w: int) -> bool {
    &&& m.latitude is Some
    &&& m.longitude is Some
    &&& lat - w <= m.latitude.unwrap() <= lat + w
    &&& lon - w <= m.longitude.unwrap() <= lon + w
}

/// ASCII lowercase folding, executable.
pub fn to_lower(v: &Vec<u8>) -> (r: Vec<u8>)
    ensures
        r@ == lower(v@),
{
    let mut r: Vec<u8> = Vec::new();
    let mut i: usize = 0;
    while i < v.len()
        invariant
            i <= v@.len(),
            r@.len() == i,
            forall|k: int| 0 <= k < i ==> r@[k] == lower_byte(#[trigger] v@[k]),
        decreases v@.len() - i,
    {
        let b = v[i];
        if 65 <= b && b <= 90 {
            r.push(b + 32);
        } else {
            r.push(b);
        }
        i = i + 1;
    }
    assert(r@ =~= lower(v@));
    r
}

/// Naive substring search.
fn contains_subslice(hay: &Vec<u8>, needle: &Vec<u8>) -> (r: bool)
    ensures
        r == contains_sub(hay@, needle@),
{
    let n = needle.len();
    let h = hay.len();
    if n > h {
        assert(forall|i: int| !match_at(hay@, needle@, i));
        return false;
    }
    let mut i: usize = 0;
    while i <= h - n
        invariant
            n == needle@.len(),
            h == hay@.len(),
            n <= h,
            i <= h - n + 1,
            forall|k: int| 0 <= k < i ==> !match_at(hay@, needle@, k),
        decreases h - i,
    {
        let mut j: usize = 0;
        while j < n && hay[i + j] == needle[j]
            invariant
                n == needle@.len(),
                h == hay@.len(),
                n <= h,
                i <= h - n,
                j <= n,
                forall|k: int| 0 <= k < j ==> hay@[i + k] == needle@[k],
            decreases n - j,
        {
            j = j + 1;
        }
        if j == n {
            assert(hay@.subrange(i as int, i + n) =~= needle@);
            assert(match_at(hay@, needle@, i as int));
            return true;
        }
        proof {
            assert(hay@[i + j] != needle@[j as int]);
            if match_at(hay@, needle@, i as int) {
                assert(hay@.subrange(i as int, i + n)[j as int] == hay@[i + j]);
            }
        }
        i = i + 1;
    }
    proof {
        assert(forall|k: int| i <= k ==> !match_at(hay@, needle@, k));
        assert(forall|k: int| !match_at(hay@, needle@, k));
    }
    false
}

/// Case-insensitive substring match of `pat` in `hay`.
pub fn contains_ci_bytes(hay: &Vec<u8>, pat: &Vec<u8>) -> (r: bool)
    ensures
        r == contains_ci(hay@, pat@),
{
    let hl = to_lower(hay);
    let pl = to_lower(pat);
    contains_subslice(&hl, &pl)
}

/// Case-insensitive match of `pat` against an optional field.
fn opt_field_matches(o: &Option<Vec<u8>>, pat: &Vec<u8>) -> (r: bool)
    ensures
        r == opt_ci_match(opt_bytes(*o), pat@),
{
    match o {
        Some(v) => contains_ci_bytes(v, pat),
        None => false,
    }
}

/// Case-insensitive match of `pat` against the record's display name or
/// any of its localized info fields.
pub fn matches_record(rec: &StationRecord, pat: &Vec<u8>) -> (r: bool)
    ensures
        r == model_matches(rec@, pat@),
{
    if contains_ci_bytes(&rec.name, pat) {
        return true;
    }
    let mut j: usize = 0;
    while j < 18
        invariant
            j <= 18,
            rec@.info.len() == 18,
            forall|k: int| 0 <= k < j ==> !opt_ci_match(#[trigger] rec@.info[k], pat@),
        decreases 18 - j,
    {
        let field = rec.info.field_at(j);
        if opt_field_matches(field, pat) {
            assert(opt_ci_match(rec@.info[j as int], pat@));
            return true;
        }
        j = j + 1;
    }
    false
}

/// The first `limit` elements of `s`, or all of them if there are fewer.
pub open spec fn take_upto<A>(s: Seq<A>, limit: int) -> Seq<A> {
    if s.len() <= limit {
        s
    } else {
        s.take(limit)
    }
}

/// The row filter the gateway queries share: an addressable row, matching
/// the name pattern when one is given, inside the bounding box when a
/// position is given.
pub open spec fn gateway_pred(
    name: Option<Seq<u8>>,
    pos: Option<(i64, i64)>,
    w: int,
    m: StationModel,
) -> bool {
    &&& m.has_uic()
    &&& (name is Some ==> model_matches(m, name.unwrap()))
    &&& (pos is Some ==> in_box(m, pos.unwrap().0 as int, pos.unwrap().1 as int, w))
}

/// What a gateway query returns: the rows passing [`gateway_pred`], in
/// store order, cut off at `limit`.
pub open spec fn gateway_results(
    ms: Seq<StationModel>,
    name: Option<Seq<u8>>,
    pos: Option<(i64, i64)>,
    w: int,
    limit: int,
) -> Seq<StationModel> {
    take_upto(ms.filter(|m: StationModel| gateway_pred(name, pos, w, m)), limit)
}

/// The first row whose UIC code equals `uic`.
pub open spec fn find_by_uic(ms: Seq<StationModel>, uic: Seq<u8>) -> Option<StationModel>
    decreases ms.len(),
{
    if ms.len() == 0 {
        None
    } else if ms[0].uic == uic {
        Some(ms[0])
    } else {
        find_by_uic(ms.drop_first(), uic)
    }
}

/// The in-memory station store: the destination table of ingestion runs
/// and the source of every query.
pub struct StationStore {
    rows: Vec<StationRecord>,
}

impl View for StationStore {
    type V = Seq<StationModel>;

    closed spec fn view(&self) -> Seq<StationModel> {
        models(self.rows@)
    }
}

proof fn lemma_models_push(s: Seq<StationRecord>, x: StationRecord)
    ensures
        models(s.push(x)) =~= models(s).push(x@),
{
}

proof fn lemma_filter_push<A>(t: Seq<A>, x: A, pred: spec_fn(A) -> bool)
    ensures
        t.push(x).filter(pred) == if pred(x) {
            t.filter(pred).push(x)
        } else {
            t.filter(pred)
        },
{
    reveal(Seq::filter);
    assert(t.push(x).drop_last() =~= t);
}

impl StationStore {
    /// An empty store.
    pub fn new() -> (r: StationStore)
        ensures
            r@ == Seq::<StationModel>::empty(),
    {
        let r = StationStore { rows: Vec::new() };
        assert(r@ =~= Seq::<StationModel>::empty());
        r
    }

    /// How many rows the store holds.
    pub fn count(&self) -> (r: usize)
        ensures
            r == self@.len(),
    {
        self.rows.len()
    }

    /// Atomic bulk load: drops every stored row and stores `rows` in
    /// their given order. The one operation that changes the store.
    pub fn replace_all(&mut self, rows: Vec<StationRecord>) -> (count: usize)
        ensures
            final(self)@ == models(rows@),
            count == rows@.len(),
    {
        let count = rows.len();
        self.rows = rows;
        count
    }

    /// Borrows the row at `i`, in store order.
    pub fn row_at(&self, i: usize) -> (r: &StationRecord)
        requires
            i < self@.len(),
        ensures
            r@ == self@[i as int],
    {
        &self.rows[i]
    }
}

/// The application's state, shared by every request handler: the store
/// queries are answered from.
pub struct AppState {
    pub store: StationStore,
}

/// The gateway's query primitives.
pub struct Search;

/// Selects, in store order, up to `limit` rows passing the shared filter.
fn select_rows(
    db: &StationStore,
    name: Option<&Vec<u8>>,
    pos: Option<(i64, i64)>,
    limit: usize,
) -> (r: Vec<StationRecord>)
    ensures
        models(r@) == gateway_results(
            db@,
            match name {
                Some(v) => Some(v@),
                None => None,
            },
            pos,
            APPROXIMATE_DISTANCE as int,
            limit as int,
        ),
        r@.len() <= limit,
{
    let ghost gname: Option<Seq<u8>> = match name {
        Some(v) => Some(v@),
        None => None,
    };
    let ghost pred = |m: StationModel| gateway_pred(gname, pos, APPROXIMATE_DISTANCE as int, m);
    let n = db.count();
    let mut out: Vec<StationRecord> = Vec::new();
    let mut i: usize = 0;
    while i < n && out.len() < limit
        invariant
            n == db@.len(),
            i <= n,
            out@.len() <= limit,
            gname == (match name {
                Some(v) => Some(v@),
                None => None,
            }),
            pred == (|m: StationModel| gateway_pred(gname, pos, APPROXIMATE_DISTANCE as int, m)),
            models(out@) == db@.take(i as int).filter(pred),
        decreases n - i,
    {
        let rec = db.row_at(i);
        let mut selected = rec.uic.len() > 0;
        if selected {
            match name {
                Some(pat) => {
                    if !matches_record(rec, pat) {
                        selected = false;
                    }
                },
                None => {},
            }
        }
        if selected {
            match pos {
                Some((lat, lon)) => {
                    match (rec.latitude, rec.longitude) {
                        (Some(rlat), Some(rlon)) => {
                            let lat_ok = (lat as i128) - (APPROXIMATE_DISTANCE as i128) <= (
                            rlat as i128) && (rlat as i128) <= (lat as i128) + (
                            APPROXIMATE_DISTANCE as i128);
                            let lon_ok = (lon as i128) - (APPROXIMATE_DISTANCE as i128) <= (
                            rlon as i128) && (rlon as i128) <= (lon as i128) + (
                            APPROXIMATE_DISTANCE as i128);
                            if !(lat_ok && lon_ok) {
                                selected = false;
                            }
                        },
                        _ => {
                            selected = false;
                        },
                    }
                },
                None => {},
            }
        }
        assert(selected == pred(db@[i as int]));
        proof {
            assert(db@.take(i + 1 as int).drop_last() =~= db@.take(i as int));
            assert(db@.take(i + 1 as int) =~= db@.take(i as int).push(db@[i as int]));
            lemma_filter_push(db@.take(i as int), db@[i as int], pred);
        }
        if selected {
            let copy = rec.duplicate();
            proof {
                lemma_models_push(out@, copy);
            }
            out.push(copy);
        }
        i = i + 1;
    }
    proof {
        let full = db@.filter(pred);
        if i == n {
            assert(db@.take(n as int) =~= db@);
            assert(models(out@) == full);
            assert(take_upto(full, limit as int) == full);
        } else {
            assert(out@.len() == limit);
            assert(db@ =~= db@.take(i as int) + db@.skip(i as int));
            Seq::filter_distributes_over_add(
                db@.take(i as int),
                db@.skip(i as int),
                pred,
            );
            assert(full =~= models(out@) + db@.skip(i as int).filter(pred));
            assert(take_upto(full, limit as int) =~= models(out@));
        }
    }
    out
}

impl Search {
    /// Every addressable station, in store order, up to `limit`.
    pub fn all(db: &StationStore, limit: usize) -> (r: Vec<StationRecord>)
        ensures
            models(r@) == gateway_results(
                db@,
                None,
                None,
                APPROXIMATE_DISTANCE as int,
                limit as int,
            ),
            r@.len() <= limit,
    {
        select_rows(db, None, None, limit)
    }

    /// The addressable stations matching `name` case-insensitively in the
    /// display name or any localized info field, in store order, up to
    /// `limit`.
    pub fn by_name(db: &StationStore, name: &Vec<u8>, limit: usize) -> (r: Vec<StationRecord>)
        ensures
            models(r@) == gateway_results(
                db@,
                Some(name@),
                None,
                APPROXIMATE_DISTANCE as int,
                limit as int,
            ),
            r@.len() <= limit,
    {
        select_rows(db, Some(name), None, limit)
    }

    /// The first station whose UIC code equals `place_id`; absence is a
    /// normal not-found outcome, not a fault.
    pub fn by_place_id(db: &StationStore, place_id: &Vec<u8>) -> (r: Result<
        StationRecord,
        DbError,
    >)
        ensures
            match r {
                Ok(rec) => find_by_uic(db@, place_id@) == Some(rec@),
                Err(e) => find_by_uic(db@, place_id@) is None && e is RecordNotFound,
            },
    {
        let n = db.count();
        assert(db@.skip(0) =~= db@);
        let mut i: usize = 0;
        while i < n
            invariant
                n == db@.len(),
                i <= n,
                find_by_uic(db@, place_id@) == find_by_uic(db@.skip(i as int), place_id@),
            decreases n - i,
        {
            let rec = db.row_at(i);
            let same = rec.uic == *place_id;
            proof {
                assert(db@.skip(i as int)[0] == db@[i as int]);
                assert(db@.skip(i as int).drop_first() =~= db@.skip(i + 1 as int));
                if same {
                    assert(rec.uic@ =~= place_id@);
                } else {
                    if rec.uic@ == place_id@ {
                        assert(rec.uic@.len() == place_id@.len());
                        assert(forall|k: int|
                            0 <= k < rec.uic@.len() ==> rec.uic@[k] == place_id@[k]);
                        assert(same);
                    }
                }
            }
            if same {
                return Ok(rec.duplicate());
            }
            i = i + 1;
        }
        assert(db@.skip(n as int) =~= Seq::<StationModel>::empty());
        Err(DbError::RecordNotFound(crate::station::clone_bytes(place_id)))
    }

    /// The addressable stations whose coordinates fall in the fixed-width
    /// bounding box around `(latitude, longitude)`, in store order, up to
    /// `limit`. A cheap prefilter: callers re-rank by true distance.
    pub fn by_position(db: &StationStore, latitude: i64, longitude: i64, limit: usize) -> (r:
        Vec<StationRecord>)
        ensures
            models(r@) == gateway_results(
                db@,
                None,
                Some((latitude, longitude)),
                APPROXIMATE_DISTANCE as int,
                limit as int,
            ),
            r@.len() <= limit,
    {
        select_rows(db, None, Some((latitude, longitude)), limit)
    }

    /// The addressable stations matching `name` and falling in the fixed-
    /// width bounding box, in store order, up to `limit`.
    pub fn by_name_and_position(
        db: &StationStore,
        name: &Vec<u8>,
        latitude: i64,
        longitude: i64,
        limit: usize,
    ) -> (r: Vec<StationRecord>)
        ensures
            models(r@) == gateway_results(
                db@,
                Some(name@),
                Some((latitude, longitude)),
                APPROXIMATE_DISTANCE as int,
                limit as int,
            ),
            r@.len() <= limit,
    {
        select_rows(db, Some(name), Some((latitude, longitude)), limit)
    }
}

} // verus!
