//! The search engine: deterministic ranking of candidate stations, and
//! the place endpoints built on it.
//!
//! A query without a position keeps the gateway's order. A query with a
//! position fetches a generous candidate set through the bounding-box
//! prefilter and ranks it by true great-circle distance; when a name is
//! given as well, an exact (case-insensitive) name match outranks any
//! non-exact match within one hundred kilometers, because the ranking key
//! adds one hundred kilometers to every non-exact match. Lower keys win;
//! among equal keys the gateway's order is kept.

use vstd::prelude::*;

use vstd::multiset::Multiset;

use crate::error::Error;
use crate::geo::distance_meters;
use crate::geo::spec_distance_m;
use crate::geo::valid_coordinate;
use crate::osdm::OsdmPlaceRequest;
use crate::osdm::OsdmPlaceResponse;
use crate::osdm::OsdmProblem;
use crate::osdm::PlaceModel;
use crate::osdm::PlacesResponse;
use crate::osdm::place_seq;
use crate::osdm::spec_place_of;
use crate::parse::spec_trim;
use crate::station::StationModel;
use crate::station::StationRecord;
use crate::station::models;
use crate::store::Search;
use crate::store::StationStore;
use crate::store::find_by_uic;
use crate::store::gateway_results;
use crate::store::lower;
use crate::store::take_upto;
use crate::store::to_lower;

verus! {

/// How many results a search returns when the request does not say.
pub const DEFAULT_NUMBER_OF_RESULTS: usize = 20;

/// Meters added to the ranking key of a non-exact name match: one
/// hundred kilometers.
pub const NAME_BONUS_M: u64 = 100000;

/// The spec-level values of a keyed candidate list.
pub open spec fn pair_models(s: Seq<(u64, StationRecord)>) -> Seq<(int, StationModel)> {
    s.map_values(|p: (u64, StationRecord)| (p.0 as int, p.1@))
}

/// Index of the first pair with the smallest key.
pub open spec fn min_key_index(s: Seq<(int, StationModel)>) -> int
    decreases s.len(),
{
    if s.len() <= 1 {
        0
    } else {
        let m = min_key_index(s.drop_first()) + 1;
        if s[0].0 <= s[m].0 {
            0
        } else {
            m
        }
    }
}

proof fn lemma_min_key_index_range(s: Seq<(int, StationModel)>)
    requires
        s.len() > 0,
    ensures
        0 <= min_key_index(s) < s.len(),
    decreases s.len(),
{
    if s.len() > 1 {
        lemma_min_key_index_range(s.drop_first());
    }
}

proof fn lemma_min_key_index_is_min(s: Seq<(int, StationModel)>)
    requires
        s.len() > 0,
    ensures
        0 <= min_key_index(s) < s.len(),
        forall|k: int| 0 <= k < s.len() ==> s[min_key_index(s)].0 <= #[trigger] s[k].0,
        forall|k: int| 0 <= k < min_key_index(s) ==> #[trigger] s[k].0 > s[min_key_index(s)].0,
    decreases s.len(),
{
    lemma_min_key_index_range(s);
    if s.len() > 1 {
        let t = s.drop_first();
        lemma_min_key_index_is_min(t);
        let m = min_key_index(t) + 1;
        assert(forall|k: int| 1 <= k < s.len() ==> s[k] == #[trigger] t[k - 1]);
        if s[0].0 <= s[m].0 {
            assert(min_key_index(s) == 0);
            assert forall|k: int| 0 <= k < s.len() implies s[0].0 <= #[trigger] s[k].0 by {
                if k >= 1 {
                    assert(t[m - 1].0 <= t[k - 1].0);
                }
            }
        } else {
            assert(min_key_index(s) == m);
            assert forall|k: int| 0 <= k < s.len() implies s[m].0 <= #[trigger] s[k].0 by {
                if k >= 1 {
                    assert(t[m - 1].0 <= t[k - 1].0);
                }
            }
            assert forall|k: int| 0 <= k < m implies #[trigger] s[k].0 > s[m].0 by {
                if k >= 1 {
                    assert(t[k - 1].0 > t[m - 1].0);
                }
            }
        }
    }
}

proof fn lemma_min_key_index_at(s: Seq<(int, StationModel)>, p: int)
    requires
        0 <= p < s.len(),
        forall|k: int| 0 <= k < s.len() ==> s[p].0 <= #[trigger] s[k].0,
        forall|k: int| 0 <= k < p ==> #[trigger] s[k].0 > s[p].0,
    ensures
        min_key_index(s) == p,
    decreases s.len(),
{
    if p == 0 {
        if s.len() > 1 {
            lemma_min_key_index_range(s.drop_first());
            let m = min_key_index(s.drop_first()) + 1;
            assert(s[m] == s.drop_first()[m - 1]);
        }
    } else {
        assert(forall|k: int| 1 <= k < s.len() ==> s[k] == #[trigger] s.drop_first()[k - 1]);
        lemma_min_key_index_at(s.drop_first(), p - 1);
        let m = min_key_index(s.drop_first()) + 1;
        assert(s[0].0 > s[p].0);
    }
}

/// Selection sort of a keyed candidate list: repeatedly moves the first
/// pair with the smallest key to the front. Deterministic, and stable
/// for equal keys.
pub open spec fn spec_sort(s: Seq<(int, StationModel)>) -> Seq<(int, StationModel)>
    decreases s.len(),
    via spec_sort_decreases
{
    if s.len() == 0 {
        s
    } else {
        let i = min_key_index(s);
        seq![s[i]] + spec_sort(s.remove(i))
    }
}

#[via_fn]
proof fn spec_sort_decreases(s: Seq<(int, StationModel)>) {
    if s.len() > 0 {
        lemma_min_key_index_range(s);
    }
}

/// Sorting keeps the pairs: the result holds exactly the given pairs,
/// as a multiset.
pub proof fn lemma_sort_permutes(s: Seq<(int, StationModel)>)
    ensures
        spec_sort(s).to_multiset() == s.to_multiset(),
    decreases s.len(),
{
    broadcast use vstd::multiset::group_multiset_axioms;

    if s.len() > 0 {
        let i = min_key_index(s);
        lemma_min_key_index_range(s);
        lemma_sort_permutes(s.remove(i));
        let srt = spec_sort(s);
        assert(srt == seq![s[i]] + spec_sort(s.remove(i)));
        assert(srt[0] == s[i]);
        assert(srt.remove(0) =~= spec_sort(s.remove(i)));
        srt.to_multiset_ensures();
        s.to_multiset_ensures();
        assert(srt.remove(0).to_multiset() =~= srt.to_multiset().remove(srt[0]));
        assert(s.remove(i).to_multiset() =~= s.to_multiset().remove(s[i]));
        assert(srt.to_multiset().remove(s[i]) =~= s.to_multiset().remove(s[i]));
        assert(srt.contains(srt[0]));
        assert(srt.to_multiset().count(s[i]) > 0);
        assert(s.contains(s[i]));
        assert(s.to_multiset().count(s[i]) > 0);
        assert forall|x: (int, StationModel)|
            srt.to_multiset().count(x) == s.to_multiset().count(x) by {
            let a = srt.to_multiset();
            let b = s.to_multiset();
            assert(a.remove(s[i]).count(x) == b.remove(s[i]).count(x));
            if x == s[i] {
                assert(a.remove(s[i]).count(x) == a.count(x) - 1);
                assert(b.remove(s[i]).count(x) == b.count(x) - 1);
            } else {
                assert(Multiset::singleton(s[i]).count(x) == 0);
                assert(a.remove(s[i]).count(x) == a.count(x));
                assert(b.remove(s[i]).count(x) == b.count(x));
            }
        }
        assert(srt.to_multiset() =~= s.to_multiset());
    }
}

/// Sorting orders the pairs: the keys of the result ascend.
pub proof fn lemma_sort_sorted(s: Seq<(int, StationModel)>)
    ensures
        spec_sort(s).len() == s.len(),
        forall|a: int, b: int|
            0 <= a <= b < s.len() ==> #[trigger] spec_sort(s)[a].0 <= #[trigger] spec_sort(
                s,
            )[b].0,
    decreases s.len(),
{
    if s.len() > 0 {
        let i = min_key_index(s);
        lemma_min_key_index_is_min(s);
        lemma_sort_sorted(s.remove(i));
        let rest = spec_sort(s.remove(i));
        assert forall|b: int| 1 <= b < s.len() implies s[i].0 <= #[trigger] spec_sort(
            s,
        )[b].0 by {
            assert(spec_sort(s)[b] == rest[b - 1]);
            lemma_sort_permutes(s.remove(i));
            rest.to_multiset_ensures();
            s.remove(i).to_multiset_ensures();
            assert(rest.to_multiset().contains(rest[b - 1]));
            assert(s.remove(i).contains(rest[b - 1]));
            let k = choose|k: int|
                0 <= k < s.remove(i).len() && s.remove(i)[k] == rest[b - 1];
            assert(s.remove(i)[k] == if k < i {
                s[k]
            } else {
                s[k + 1]
            });
        }
        assert forall|a: int, b: int|
            0 <= a <= b < s.len() implies #[trigger] spec_sort(s)[a].0 <= #[trigger] spec_sort(
            s,
        )[b].0 by {
            if a > 0 {
                assert(spec_sort(s)[a] == rest[a - 1]);
                assert(spec_sort(s)[b] == rest[b - 1]);
            }
        }
    }
}

/// Selection sort of a keyed candidate list, ascending by key; pairs
/// with equal keys keep their order.
fn sort_by_key(v: Vec<(u64, StationRecord)>) -> (r: Vec<(u64, StationRecord)>)
    ensures
        pair_models(r@) == spec_sort(pair_models(v@)),
{
    let mut input = v;
    let mut out: Vec<(u64, StationRecord)> = Vec::new();
    let ghost orig = pair_models(input@);
    proof {
        assert(pair_models(out@) + spec_sort(pair_models(input@)) =~= spec_sort(orig));
    }
    while input.len() > 0
        invariant
            pair_models(out@) + spec_sort(pair_models(input@)) == spec_sort(orig),
        decreases input.len(),
    {
        let n = input.len();
        let mut mn: usize = 0;
        let mut j: usize = 1;
        while j < n
            invariant
                n == input@.len(),
                mn < j <= n,
                forall|k: int|
                    0 <= k < j ==> input@[mn as int].0 <= #[trigger] input@[k].0,
                forall|k: int| 0 <= k < mn ==> #[trigger] input@[k].0 > input@[mn as int].0,
            decreases n - j,
        {
            if input[j].0 < input[mn].0 {
                mn = j;
            }
            j = j + 1;
        }
        proof {
            let pm = pair_models(input@);
            assert(forall|k: int|
                0 <= k < pm.len() ==> #[trigger] pm[k] == (input@[k].0 as int, input@[k].1@));
            lemma_min_key_index_at(pm, mn as int);
            assert(spec_sort(pm) == seq![pm[mn as int]] + spec_sort(pm.remove(mn as int)));
        }
        let ghost before = input@;
        let item = input.remove(mn);
        proof {
            assert(pair_models(input@) =~= pair_models(before).remove(mn as int));
        }
        let ghost out_before = out@;
        out.push(item);
        proof {
            assert(pair_models(out@) =~= pair_models(out_before).push(
                (item.0 as int, item.1@),
            ));
            assert(pair_models(out_before).push((item.0 as int, item.1@))
                + spec_sort(pair_models(input@)) =~= pair_models(out_before) + (seq![
                (item.0 as int, item.1@),
            ] + spec_sort(pair_models(input@))));
        }
    }
    proof {
        assert(pair_models(input@) =~= Seq::<(int, StationModel)>::empty());
        assert(pair_models(out@) + Seq::<(int, StationModel)>::empty() =~= pair_models(out@));
    }
    out
}

/// A candidate takes part in ranking: both coordinates present and
/// within range.
pub open spec fn spec_rankable(m: StationModel) -> bool {
    m.has_position() && valid_coordinate(m.latitude.unwrap(), m.longitude.unwrap())
}

/// The station's name equals the query name, compared case folded.
pub open spec fn spec_name_exact(m: StationModel, q: Seq<u8>) -> bool {
    lower(m.name) == lower(q)
}

/// The candidate's true great-circle distance from the query point.
pub open spec fn spec_station_distance(m: StationModel, qlat: i64, qlon: i64) -> int {
    spec_distance_m(qlat, qlon, m.latitude.unwrap(), m.longitude.unwrap())
}

/// The ranking key of one candidate, in meters: its true great-circle
/// distance from the query point, plus one hundred kilometers when a
/// name is queried and the candidate's name is not an exact match.
/// Lower keys win.
pub open spec fn spec_rank_key(
    m: StationModel,
    name: Option<Seq<u8>>,
    qlat: i64,
    qlon: i64,
) -> int {
    let bonus: int = match name {
        Some(q) => if spec_name_exact(m, q) {
            0
        } else {
            NAME_BONUS_M as int
        },
        None => 0,
    };
    bonus + spec_station_distance(m, qlat, qlon)
}

/// The rankable candidates, each paired with its ranking key.
pub open spec fn spec_keyed(
    cands: Seq<StationModel>,
    name: Option<Seq<u8>>,
    qlat: i64,
    qlon: i64,
) -> Seq<(int, StationModel)> {
    cands.filter(|m: StationModel| spec_rankable(m)).map_values(
        |m: StationModel| (spec_rank_key(m, name, qlat, qlon), m),
    )
}

/// The stations of a keyed list, keys dropped.
pub open spec fn strip_keys(s: Seq<(int, StationModel)>) -> Seq<StationModel> {
    s.map_values(|p: (int, StationModel)| p.1)
}

/// What a position query returns: the bounding-box candidates, ranked
/// ascending by key, cut off at `limit`.
pub open spec fn spec_ranked(
    ms: Seq<StationModel>,
    name: Option<Seq<u8>>,
    qlat: i64,
    qlon: i64,
    limit: int,
) -> Seq<StationModel> {
    let cands = gateway_results(
        ms,
        name,
        Some((qlat, qlon)),
        crate::store::APPROXIMATE_DISTANCE as int,
        ms.len() as int,
    );
    take_upto(strip_keys(spec_sort(spec_keyed(cands, name, qlat, qlon))), limit)
}

/// The name constraint of a request; an empty or whitespace-only name
/// means no constraint.
pub open spec fn spec_query_name(req: OsdmPlaceRequest) -> Option<Seq<u8>> {
    match req.place_input {
        Some(input) => match input.name {
            Some(n) => if spec_trim(n@).len() == 0 {
                None
            } else {
                Some(n@)
            },
            None => None,
        },
        None => None,
    }
}

/// The position constraint of a request.
pub open spec fn spec_query_position(req: OsdmPlaceRequest) -> Option<
    crate::osdm::OsdmGeoPosition,
> {
    match req.place_input {
        Some(input) => input.geo_position,
        None => None,
    }
}

/// The result limit of a request, twenty when it does not say.
pub open spec fn spec_query_limit(req: OsdmPlaceRequest) -> int {
    match req.restrictions {
        Some(r) => match r.number_of_results {
            Some(n) => n as int,
            None => DEFAULT_NUMBER_OF_RESULTS as int,
        },
        None => DEFAULT_NUMBER_OF_RESULTS as int,
    }
}

/// What a search returns for a request over the given rows: gateway
/// order for list and name queries, ranked order for position queries.
pub open spec fn spec_search_results(ms: Seq<StationModel>, req: OsdmPlaceRequest) -> Seq<
    PlaceModel,
> {
    match spec_query_position(req) {
        None => place_seq(
            gateway_results(
                ms,
                spec_query_name(req),
                None,
                crate::store::APPROXIMATE_DISTANCE as int,
                spec_query_limit(req),
            ),
        ),
        Some(p) => place_seq(
            spec_ranked(ms, spec_query_name(req), p.latitude, p.longitude, spec_query_limit(req)),
        ),
    }
}

/// Compares the station's name with the query name, case folded.
fn name_is_exact(rec_name: &Vec<u8>, q: &Vec<u8>) -> (r: bool)
    ensures
        r == (lower(rec_name@) == lower(q@)),
{
    let a = to_lower(rec_name);
    let b = to_lower(q);
    let eq = a == b;
    proof {
        if eq {
            assert(a@ =~= b@);
        } else {
            if a@ == b@ {
                assert(a@.len() == b@.len());
                assert(forall|k: int| 0 <= k < a@.len() ==> a@[k] == b@[k]);
                assert(eq);
            }
        }
    }
    eq
}

/// Ranks the candidates of a position query: candidates without usable
/// coordinates are dropped, the rest are keyed by distance (and name
/// bonus), sorted ascending, and cut off at `limit`.
#[verifier::rlimit(80)]
fn rank_candidates(
    cands: &Vec<StationRecord>,
    name: Option<&Vec<u8>>,
    qlat: i64,
    qlon: i64,
    limit: usize,
) -> (r: Vec<StationRecord>)
    requires
        valid_coordinate(qlat, qlon),
    ensures
        models(r@) == spec_ranked_from(
            models(cands@),
            match name {
                Some(v) => Some(v@),
                None => None,
            },
            qlat,
            qlon,
            limit as int,
        ),
{
    let ghost gname: Option<Seq<u8>> = match name {
        Some(v) => Some(v@),
        None => None,
    };
    let mut keyed: Vec<(u64, StationRecord)> = Vec::new();
    let mut i: usize = 0;
    while i < cands.len()
        invariant
            valid_coordinate(qlat, qlon),
            i <= cands@.len(),
            gname == (match name {
                Some(v) => Some(v@),
                None => None,
            }),
            pair_models(keyed@) == spec_keyed(models(cands@).take(i as int), gname, qlat, qlon),
        decreases cands@.len() - i,
    {
        let rec = &cands[i];
        let ghost m = rec@;
        let mut usable = false;
        let mut key: u64 = 0;
        match (rec.latitude, rec.longitude) {
            (Some(rlat), Some(rlon)) => {
                if -90000000 <= rlat && rlat <= 90000000 && -180000000 <= rlon && rlon
                    <= 180000000 {
                    usable = true;
                    let d = distance_meters(qlat, qlon, rlat, rlon);
                    let bonus: u64 = match name {
                        Some(q) => {
                            if name_is_exact(&rec.name, q) {
                                0
                            } else {
                                NAME_BONUS_M
                            }
                        },
                        None => 0,
                    };
                    key = bonus + d;
                }
            },
            _ => {},
        }
        assert(usable == spec_rankable(m));
        proof {
            let pred = |mm: StationModel| spec_rankable(mm);
            let keyfn = |mm: StationModel| (spec_rank_key(mm, gname, qlat, qlon), mm);
            assert(models(cands@).take(i + 1 as int).drop_last() =~= models(cands@).take(
                i as int,
            ));
            assert(models(cands@).take(i + 1 as int) =~= models(cands@).take(i as int).push(m));
            lemma_filter_push_model(models(cands@).take(i as int), m, pred);
        }
        if usable {
            assert(key == spec_rank_key(m, gname, qlat, qlon));
            let ghost keyed_before = keyed@;
            keyed.push((key, rec.duplicate()));
            proof {
                assert(pair_models(keyed@) =~= pair_models(keyed_before).push(
                    (key as int, m),
                ));
                assert(pair_models(keyed@) =~= spec_keyed(
                    models(cands@).take(i + 1 as int),
                    gname,
                    qlat,
                    qlon,
                ));
            }
        } else {
            assert(pair_models(keyed@) =~= spec_keyed(
                models(cands@).take(i + 1 as int),
                gname,
                qlat,
                qlon,
            ));
        }
        i = i + 1;
    }
    proof {
        assert(models(cands@).take(models(cands@).len() as int) =~= models(cands@));
    }
    let mut sorted = sort_by_key(keyed);
    let ghost whole = spec_sort(spec_keyed(models(cands@), gname, qlat, qlon));
    if sorted.len() > limit {
        let ghost before_cut = sorted@;
        sorted.truncate(limit);
        proof {
            assert(pair_models(sorted@) =~= pair_models(before_cut).subrange(0, limit as int));
            assert(pair_models(before_cut).subrange(0, limit as int) =~= take_upto(
                whole,
                limit as int,
            ));
        }
    }
    assert(pair_models(sorted@) == take_upto(whole, limit as int));
    let mut out: Vec<StationRecord> = Vec::new();
    let mut j: usize = 0;
    while j < sorted.len()
        invariant
            j <= sorted@.len(),
            pair_models(sorted@) == take_upto(whole, limit as int),
            out@.len() == j,
            forall|k: int|
                0 <= k < j ==> #[trigger] out@[k]@ == pair_models(sorted@)[k].1,
        decreases sorted@.len() - j,
    {
        let rec = sorted[j].1.duplicate();
        out.push(rec);
        j = j + 1;
    }
    proof {
        assert(models(out@) =~= strip_keys(take_upto(whole, limit as int)));
        lemma_strip_take(whole, limit as int);
    }
    out
}

/// Ranked candidates as [`spec_ranked`] names them, from an explicit
/// candidate list.
pub open spec fn spec_ranked_from(
    cands: Seq<StationModel>,
    name: Option<Seq<u8>>,
    qlat: i64,
    qlon: i64,
    limit: int,
) -> Seq<StationModel> {
    take_upto(strip_keys(spec_sort(spec_keyed(cands, name, qlat, qlon))), limit)
}

proof fn lemma_filter_push_model(
    t: Seq<StationModel>,
    x: StationModel,
    pred: spec_fn(StationModel) -> bool,
)
    ensures
        t.push(x).filter(pred) == if pred(x) {
            t.filter(pred).push(x)
        } else {
            t.filter(pred)
        },
{
    reveal(Seq::filter);
    assert(t.push(x).drop_last() =~= t);
}

proof fn lemma_strip_take(s: Seq<(int, StationModel)>, limit: int)
    requires
        limit >= 0,
    ensures
        strip_keys(take_upto(s, limit)) =~= take_upto(strip_keys(s), limit),
{
}

/// The problem code reported when a place cannot be found.
pub open spec fn not_found_code() -> Seq<u8> {
    seq![110u8, 111u8, 116u8, 45u8, 102u8, 111u8, 117u8, 110u8, 100u8]
}

/// Every addressable station, as places, in store order.
pub fn list(db: &StationStore) -> (r: PlacesResponse)
    ensures
        r matches PlacesResponse::Found(resp) && resp@ == place_seq(
            gateway_results(
                db@,
                None,
                None,
                crate::store::APPROXIMATE_DISTANCE as int,
                db@.len() as int,
            ),
        ),
{
    let rows = Search::all(db, db.count());
    PlacesResponse::Found(OsdmPlaceResponse::from(&rows))
}

/// Answers one search request: list-all and name queries keep the
/// gateway's order; position queries are ranked by true distance, with
/// the exact-name bonus when a name is given too. A position outside
/// the valid coordinate ranges is a client fault.
pub fn search(db: &StationStore, req: &OsdmPlaceRequest) -> (r: Result<PlacesResponse, Error>)
    ensures
        match r {
            Ok(resp) => {
                &&& (match spec_query_position(*req) {
                    Some(p) => valid_coordinate(p.latitude, p.longitude),
                    None => true,
                })
                &&& resp matches PlacesResponse::Found(pr) && pr@ == spec_search_results(
                    db@,
                    *req,
                )
            },
            Err(e) => {
                &&& e is Validation
                &&& (match spec_query_position(*req) {
                    Some(p) => !valid_coordinate(p.latitude, p.longitude),
                    None => false,
                })
            },
        },
{
    let limit: usize = match &req.restrictions {
        Some(restrictions) => match restrictions.number_of_results {
            Some(n) => n,
            None => DEFAULT_NUMBER_OF_RESULTS,
        },
        None => DEFAULT_NUMBER_OF_RESULTS,
    };
    let name_ref: Option<&Vec<u8>> = match &req.place_input {
        Some(input) => match &input.name {
            Some(n) => {
                let t = crate::parse::trim_bytes(n);
                if t.len() == 0 {
                    None
                } else {
                    Some(n)
                }
            },
            None => None,
        },
        None => None,
    };
    proof {
        assert((match name_ref {
            Some(v) => Some(v@),
            None => None,
        }) == spec_query_name(*req));
    }
    let pos = match &req.place_input {
        Some(input) => input.geo_position,
        None => None,
    };
    match pos {
        None => {
            let rows = match name_ref {
                Some(n) => Search::by_name(db, n, limit),
                None => Search::all(db, limit),
            };
            Ok(PlacesResponse::Found(OsdmPlaceResponse::from(&rows)))
        },
        Some(p) => {
            if !(-90000000 <= p.latitude && p.latitude <= 90000000 && -180000000 <= p.longitude
                && p.longitude <= 180000000) {
                let mut title: Vec<u8> = Vec::new();
                // "position out of range"
                title.push(112);
                title.push(111);
                title.push(115);
                title.push(105);
                title.push(116);
                title.push(105);
                title.push(111);
                title.push(110);
                title.push(32);
                title.push(111);
                title.push(117);
                title.push(116);
                title.push(32);
                title.push(111);
                title.push(102);
                title.push(32);
                title.push(114);
                title.push(97);
                title.push(110);
                title.push(103);
                title.push(101);
                return Err(Error::Validation(title));
            }
            let count = db.count();
            let cands = match name_ref {
                Some(n) => Search::by_name_and_position(db, n, p.latitude, p.longitude, count),
                None => Search::by_position(db, p.latitude, p.longitude, count),
            };
            let ranked = rank_candidates(&cands, name_ref, p.latitude, p.longitude, limit);
            proof {
                assert(models(cands@) == gateway_results(
                    db@,
                    spec_query_name(*req),
                    Some((p.latitude, p.longitude)),
                    crate::store::APPROXIMATE_DISTANCE as int,
                    db@.len() as int,
                ));
                assert(models(ranked@) == spec_ranked(
                    db@,
                    spec_query_name(*req),
                    p.latitude,
                    p.longitude,
                    limit as int,
                ));
            }
            Ok(PlacesResponse::Found(OsdmPlaceResponse::from(&ranked)))
        },
    }
}

/// The place with the given external id, or a not-found problem: an
/// absent id is a normal outcome, not a fault.
pub fn show(db: &StationStore, place_id: &Vec<u8>) -> (r: PlacesResponse)
    ensures
        match find_by_uic(db@, place_id@) {
            Some(m) => r matches PlacesResponse::Found(resp) && resp@ == seq![
                spec_place_of(m),
            ],
            None => r matches PlacesResponse::NotFound(p) && p.code@ == not_found_code(),
        },
{
    match Search::by_place_id(db, place_id) {
        Ok(rec) => {
            let place = crate::osdm::OsdmPlace::from(&rec);
            let mut places: Vec<crate::osdm::OsdmPlace> = Vec::new();
            places.push(place);
            let resp = OsdmPlaceResponse { places };
            assert(resp@ =~= seq![spec_place_of(find_by_uic(db@, place_id@).unwrap())]);
            PlacesResponse::Found(resp)
        },
        Err(_) => {
            let mut code: Vec<u8> = Vec::new();
            // "not-found"
            code.push(110);
            code.push(111);
            code.push(116);
            code.push(45);
            code.push(102);
            code.push(111);
            code.push(117);
            code.push(110);
            code.push(100);
            assert(code@ =~= not_found_code());
            let title = crate::station::clone_bytes(place_id);
            PlacesResponse::NotFound(OsdmProblem { code, title })
        },
    }
}

} // verus!
