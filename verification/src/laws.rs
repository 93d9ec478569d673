//! Laws of the core, stated and proved over the same specification
//! functions its contracts use.

use vstd::prelude::*;

use crate::geo::spec_distance_m;
use crate::ingest::spec_ingest;
use crate::places::NAME_BONUS_M;
use crate::places::spec_keyed;
use crate::places::spec_name_exact;
use crate::places::spec_rank_key;
use crate::places::spec_rankable;
use crate::places::spec_ranked_from;
use crate::places::spec_sort;
use crate::places::spec_station_distance;
use crate::places::lemma_sort_permutes;
use crate::places::lemma_sort_sorted;
use crate::station::StationModel;
use crate::store::gateway_results;
use crate::store::in_box;
use crate::store::take_upto;

verus! {

/// Re-syncing is idempotent: what a successful sync run stores is a
/// function of the source bytes alone — [`run_sync`] promises the final
/// store contents without reference to the prior ones — so two runs
/// against the same source leave identical datasets, each holding
/// exactly the staged records of that source.
///
/// [`run_sync`]: crate::ingest::run_sync
pub proof fn lemma_resync_idempotent(
    after_first: Seq<StationModel>,
    after_second: Seq<StationModel>,
    bytes: Seq<u8>,
)
    requires
        after_first == spec_ingest(bytes).records,
        after_second == spec_ingest(bytes).records,
    ensures
        after_first == after_second,
{
}

proof fn lemma_filter_subset<A>(s: Seq<A>, pred: spec_fn(A) -> bool)
    ensures
        forall|x: A| s.filter(pred).contains(x) ==> s.contains(x),
    decreases s.len(),
{
    reveal(Seq::filter);
    if s.len() > 0 {
        lemma_filter_subset(s.drop_last(), pred);
        assert forall|x: A| s.filter(pred).contains(x) implies s.contains(x) by {
            let t = s.drop_last();
            let k = choose|k: int| 0 <= k < s.filter(pred).len() && s.filter(pred)[k] == x;
            if pred(s.last()) && k == s.filter(pred).len() - 1 {
                assert(x == s.last());
                assert(s[s.len() - 1] == x);
            } else {
                assert(t.filter(pred)[k] == x);
                assert(t.filter(pred).contains(x));
                assert(t.contains(x));
                let i = choose|i: int| 0 <= i < t.len() && t[i] == x;
                assert(s[i] == x);
            }
        }
    }
}

/// The stations of `ms` whose coordinates fall in the box of half-width
/// `w` around `(lat, lon)`.
pub open spec fn box_candidates(ms: Seq<StationModel>, lat: int, lon: int, w: int) -> Seq<
    StationModel,
> {
    ms.filter(|m: StationModel| in_box(m, lat, lon, w))
}

/// Widening the bounding box only adds candidates: every station the
/// box of half-width `w1` admits, the box of any half-width `w2` at
/// least as wide admits too, so the candidate set for `w1` is a subset
/// of the candidate set for `w2`.
pub proof fn lemma_bounding_box_monotonic(
    ms: Seq<StationModel>,
    lat: int,
    lon: int,
    w1: int,
    w2: int,
)
    requires
        w1 <= w2,
    ensures
        forall|m: StationModel| in_box(m, lat, lon, w1) ==> in_box(m, lat, lon, w2),
        forall|x: StationModel|
            #[trigger] box_candidates(ms, lat, lon, w1).contains(x) ==> box_candidates(
                ms,
                lat,
                lon,
                w2,
            ).contains(x),
{
    let p1 = |m: StationModel| in_box(m, lat, lon, w1);
    let p2 = |m: StationModel| in_box(m, lat, lon, w2);
    broadcast use vstd::seq_lib::group_filter_ensures;

    lemma_filter_subset(ms, p1);
    assert forall|x: StationModel| ms.filter(p1).contains(x) implies ms.filter(
        p2,
    ).contains(x) by {
        let i = choose|i: int| 0 <= i < ms.filter(p1).len() && ms.filter(p1)[i] == x;
        assert(p1(ms.filter(p1)[i]));
        assert(ms.contains(x));
        let j = choose|j: int| 0 <= j < ms.len() && ms[j] == x;
        assert(p2(ms[j]));
    }
}

/// An exact (case-insensitive) name match always outranks a non-exact
/// one at the same distance, and more generally whenever it is less
/// than one hundred kilometers farther away: its ranking key is
/// strictly smaller, and lower keys rank first.
pub proof fn lemma_exact_name_precedence(
    exact: StationModel,
    other: StationModel,
    q: Seq<u8>,
    qlat: i64,
    qlon: i64,
)
    requires
        spec_rankable(exact),
        spec_rankable(other),
        spec_name_exact(exact, q),
        !spec_name_exact(other, q),
        spec_distance_m(qlat, qlon, exact.latitude.unwrap(), exact.longitude.unwrap())
            < spec_distance_m(qlat, qlon, other.latitude.unwrap(), other.longitude.unwrap())
            + NAME_BONUS_M,
    ensures
        spec_rank_key(exact, Some(q), qlat, qlon) < spec_rank_key(other, Some(q), qlat, qlon),
{
}

/// Distance ranking is correct: in a position query without a name, the
/// ranked list ascends by true great-circle distance from the query
/// point, wherever it is cut off.
pub proof fn lemma_ranked_by_distance(
    cands: Seq<StationModel>,
    qlat: i64,
    qlon: i64,
    limit: int,
)
    requires
        limit >= 0,
    ensures
        forall|a: int, b: int|
            0 <= a <= b < spec_ranked_from(cands, None, qlat, qlon, limit).len()
                ==> spec_station_distance(
                #[trigger] spec_ranked_from(cands, None, qlat, qlon, limit)[a],
                qlat,
                qlon,
            ) <= spec_station_distance(
                #[trigger] spec_ranked_from(cands, None, qlat, qlon, limit)[b],
                qlat,
                qlon,
            ),
{
    let keyed = spec_keyed(cands, None, qlat, qlon);
    let sorted = spec_sort(keyed);
    lemma_sort_sorted(keyed);
    lemma_sort_permutes(keyed);
    assert forall|i: int|
        0 <= i < sorted.len() implies #[trigger] sorted[i].0 == spec_station_distance(
        sorted[i].1,
        qlat,
        qlon,
    ) by {
        sorted.to_multiset_ensures();
        keyed.to_multiset_ensures();
        assert(sorted.contains(sorted[i]));
        assert(sorted.to_multiset().count(sorted[i]) > 0);
        assert(keyed.to_multiset().count(sorted[i]) > 0);
        assert(keyed.contains(sorted[i]));
        let j = choose|j: int| 0 <= j < keyed.len() && keyed[j] == sorted[i];
        assert(keyed[j].0 == spec_rank_key(keyed[j].1, None, qlat, qlon));
    }
    let ranked = spec_ranked_from(cands, None, qlat, qlon, limit);
    assert(ranked.len() <= sorted.len());
    assert forall|a: int, b: int|
        0 <= a <= b < ranked.len() implies spec_station_distance(
        #[trigger] ranked[a],
        qlat,
        qlon,
    ) <= spec_station_distance(#[trigger] ranked[b], qlat, qlon) by {
        assert(ranked[a] == sorted[a].1);
        assert(ranked[b] == sorted[b].1);
        assert(sorted[a].0 <= sorted[b].0);
    }
}

/// A station lacking either coordinate is excluded from every
/// position-based result, however the box is placed or sized; yet it is
/// listed, and found by name, whenever it is addressable, matches, and
/// the cut-off allows.
pub proof fn lemma_missing_coordinate_excluded(
    ms: Seq<StationModel>,
    x: StationModel,
    name: Option<Seq<u8>>,
    pos: (i64, i64),
    w: int,
    limit: int,
)
    requires
        !x.has_position(),
        limit >= 0,
    ensures
        forall|lat: int, lon: int, w2: int| !in_box(x, lat, lon, w2),
        !gateway_results(ms, name, Some(pos), w, limit).contains(x),
        !spec_rankable(x),
        (x.has_uic() && ms.contains(x) && limit >= ms.len()) ==> gateway_results(
            ms,
            None,
            None,
            w,
            limit,
        ).contains(x),
{
    broadcast use vstd::seq_lib::group_filter_ensures;

    let pred = |m: StationModel| crate::store::gateway_pred(name, Some(pos), w, m);
    let boxed = ms.filter(pred);
    assert forall|i: int| 0 <= i < boxed.len() implies boxed[i] != x by {
        assert(pred(boxed[i]));
    }
    if gateway_results(ms, name, Some(pos), w, limit).contains(x) {
        let r = gateway_results(ms, name, Some(pos), w, limit);
        let i = choose|i: int| 0 <= i < r.len() && r[i] == x;
        assert(r == take_upto(boxed, limit));
        assert(boxed[i] == x);
    }
    if x.has_uic() && ms.contains(x) && limit >= ms.len() {
        let open_pred = |m: StationModel| crate::store::gateway_pred(None, None, w, m);
        let listed = ms.filter(open_pred);
        let j = choose|j: int| 0 <= j < ms.len() && ms[j] == x;
        assert(open_pred(ms[j]));
        assert(listed.contains(ms[j]));
        assert(listed.len() <= ms.len());
        assert(take_upto(listed, limit) == listed);
    }
}

} // verus!
