//! Ranked selection of candidates with near-duplicates suppressed.
//!
//! Candidates are ranked by descending similarity to the query, ties going
//! to the earlier candidate, and taken greedily in that order: a candidate too
//! close to one already taken is skipped, and the selection stops at the limit.
//! Similarities are single-precision values handed over as IEEE-754 bit
//! patterns; whether two candidates are too close is decided by the caller
//! and handed over as a matrix of flags.
use vstd::prelude::*;

use crate::snippet::{Snippet, SnippetView};

verus! {

/// A key whose unsigned order is the total order of single-precision values
/// given by their bit patterns: negative values below positive ones, larger
/// magnitudes further from zero, the order that `f32::total_cmp` uses.
pub open spec fn order_key(bits: u32) -> u32 {
    if bits >= 0x8000_0000 {
        (0xffff_ffff - bits) as u32
    } else {
        (bits + 0x8000_0000) as u32
    }
}

/// The order keys of a sequence of similarity bit patterns.
pub open spec fn keys_of(bits: Seq<u32>) -> Seq<u32> {
    bits.map_values(|b: u32| order_key(b))
}

/// Candidate `i` ranks ahead of candidate `j`: it is more similar to the
/// query, or equally similar and earlier.
pub open spec fn ranks_before(keys: Seq<u32>, i: int, j: int) -> bool {
    keys[i] > keys[j] || (keys[i] == keys[j] && i < j)
}

/// Candidates `i` and `j` are near-duplicates, as either flag says.
pub open spec fn too_close(close: Seq<Vec<bool>>, i: int, j: int) -> bool {
    close[i]@[j] || close[j]@[i]
}

/// The closeness flags form an `n` by `n` matrix.
pub open spec fn is_square(close: Seq<Vec<bool>>, n: int) -> bool {
    close.len() == n && forall|i: int| 0 <= i < n ==> (#[trigger] close[i])@.len() == n
}

/// `picks` is the greedy selection: at most `limit` valid indices in ranking
/// order, no two of them near-duplicates, and every candidate left out is
/// either a near-duplicate of a pick that ranks ahead of it, or ranks behind
/// the last pick when the limit has been reached.
pub open spec fn is_greedy_selection(
    keys: Seq<u32>,
    close: Seq<Vec<bool>>,
    limit: int,
    picks: Seq<usize>,
) -> bool {
    &&& picks.len() <= limit
    &&& forall|k: int| 0 <= k < picks.len() ==> #[trigger] picks[k] < keys.len()
    &&& forall|a: int, b: int|
        0 <= a < b < picks.len() ==> ranks_before(keys, #[trigger] picks[a] as int, #[trigger] picks[b] as int)
    &&& forall|a: int, b: int|
        0 <= a < b < picks.len() ==> !too_close(close, #[trigger] picks[a] as int, #[trigger] picks[b] as int)
    &&& forall|j: usize|
        j < keys.len() && !(#[trigger] picks.contains(j)) ==> {
            ||| exists|k: int|
                0 <= k < picks.len() && ranks_before(keys, #[trigger] picks[k] as int, j as int)
                    && too_close(close, picks[k] as int, j as int)
            ||| picks.len() == limit && (limit == 0 || ranks_before(
                keys,
                picks[limit - 1] as int,
                j as int,
            ))
        }
}

/// The order key of a similarity's bit pattern.
pub fn similarity_key(bits: u32) -> (r: u32)
    ensures
        r == order_key(bits),
{
    if bits >= 0x8000_0000 {
        0xffff_ffff - bits
    } else {
        bits + 0x8000_0000
    }
}

/// The indices `0..n` in ranking order.
fn rank_order(keys: &Vec<u32>) -> (order: Vec<usize>)
    ensures
        order@.len() == keys@.len(),
        forall|q: int| 0 <= q < order@.len() ==> #[trigger] order@[q] < keys@.len(),
        forall|a: int, b: int|
            0 <= a < b < order@.len() ==> ranks_before(keys@, #[trigger] order@[a] as int, #[trigger] order@[b] as int),
        forall|j: usize| j < keys@.len() ==> #[trigger] order@.contains(j),
{
    let n = keys.len();
    let mut order: Vec<usize> = Vec::new();
    let mut i: usize = 0;
    while i < n
        invariant
            n == keys@.len(),
            i <= n,
            order@.len() == i,
            forall|q: int| 0 <= q < order@.len() ==> #[trigger] order@[q] < i,
            forall|a: int, b: int|
                0 <= a < b < order@.len() ==> ranks_before(keys@, #[trigger] order@[a] as int, #[trigger] order@[b] as int),
            forall|j: usize| j < i ==> #[trigger] order@.contains(j),
        decreases n - i,
    {
        let mut pos: usize = 0;
        while pos < order.len() && keys[order[pos]] >= keys[i]
            invariant
                n == keys@.len(),
                i < n,
                pos <= order@.len(),
                order@.len() == i,
                forall|q: int| 0 <= q < order@.len() ==> #[trigger] order@[q] < i,
                forall|q: int| 0 <= q < pos ==> ranks_before(keys@, #[trigger] order@[q] as int, i as int),
            decreases order@.len() - pos,
        {
            pos = pos + 1;
        }
        let ghost old_order = order@;
        order.insert(pos, i);
        proof {
            assert forall|a: int, b: int|
                0 <= a < b < order@.len() implies ranks_before(keys@, #[trigger] order@[a] as int, #[trigger] order@[b] as int) by {
                if b == pos {
                } else if a == pos {
                    assert(ranks_before(keys@, i as int, old_order[pos as int] as int));
                    if b - 1 > pos {
                        assert(ranks_before(keys@, old_order[pos as int] as int, old_order[b - 1] as int));
                    }
                } else {
                }
            }
            assert forall|j: usize| j < i + 1 implies #[trigger] order@.contains(j) by {
                if j == i {
                    assert(order@[pos as int] == j);
                } else {
                    assert(old_order.contains(j));
                    let q = choose|q: int| 0 <= q < old_order.len() && old_order[q] == j;
                    if q < pos {
                        assert(order@[q] == j);
                    } else {
                        assert(order@[q + 1] == j);
                    }
                }
            }
        }
        i = i + 1;
    }
    order
}

/// Selects candidates greedily in ranking order, skipping near-duplicates of
/// those already taken, until `limit` are taken or none is left. Returns the
/// indices of the candidates taken, best first.
pub fn select_diverse(keys: &Vec<u32>, close: &Vec<Vec<bool>>, limit: usize) -> (picks: Vec<usize>)
    requires
        is_square(close@, keys@.len() as int),
    ensures
        is_greedy_selection(keys@, close@, limit as int, picks@),
{
    let order = rank_order(keys);
    let n = order.len();
    let mut picks: Vec<usize> = Vec::new();
    let ghost mut pos: Seq<int> = Seq::empty();
    let mut p: usize = 0;
    while p < n && picks.len() < limit
        invariant
            n == order@.len(),
            n == keys@.len(),
            is_square(close@, n as int),
            forall|q: int| 0 <= q < order@.len() ==> #[trigger] order@[q] < keys@.len(),
            forall|a: int, b: int|
                0 <= a < b < order@.len() ==> ranks_before(keys@, #[trigger] order@[a] as int, #[trigger] order@[b] as int),
            forall|j: usize| j < keys@.len() ==> #[trigger] order@.contains(j),
            p <= n,
            picks@.len() <= limit,
            picks@.len() == pos.len(),
            forall|k: int| 0 <= k < picks@.len() ==> #[trigger] picks@[k] < n,
            forall|k: int| 0 <= k < pos.len() ==> 0 <= #[trigger] pos[k] < p && picks@[k] == order@[pos[k]],
            forall|a: int, b: int| 0 <= a < b < pos.len() ==> #[trigger] pos[a] < #[trigger] pos[b],
            forall|a: int, b: int|
                0 <= a < b < picks@.len() ==> !too_close(close@, #[trigger] picks@[a] as int, #[trigger] picks@[b] as int),
            forall|q: int|
                0 <= q < p ==> picks@.contains(#[trigger] order@[q]) || exists|k: int|
                    0 <= k < picks@.len() && ranks_before(keys@, #[trigger] picks@[k] as int, order@[q] as int)
                        && too_close(close@, picks@[k] as int, order@[q] as int),
        decreases n - p,
    {
        let cand = order[p];
        let mut clear = true;
        let mut k: usize = 0;
        let ghost mut witness: int = 0;
        while k < picks.len() && clear
            invariant
                k <= picks@.len(),
                cand < n,
                is_square(close@, n as int),
                forall|k: int| 0 <= k < picks@.len() ==> #[trigger] picks@[k] < n,
                clear ==> forall|k2: int| 0 <= k2 < k ==> !too_close(close@, #[trigger] picks@[k2] as int, cand as int),
                !clear ==> 0 <= witness < picks@.len() && too_close(close@, picks@[witness] as int, cand as int),
            decreases picks@.len() - k + (if clear { 1int } else { 0int }),
        {
            let other = picks[k];
            if close[other][cand] || close[cand][other] {
                clear = false;
                proof {
                    witness = k as int;
                }
            } else {
                k = k + 1;
            }
        }
        let ghost old_picks = picks@;
        if clear {
            picks.push(cand);
            proof {
                pos = pos.push(p as int);
                assert(picks@[picks@.len() - 1] == order@[p as int]);
            }
        } else {
            proof {
                assert(ranks_before(keys@, order@[pos[witness]] as int, order@[p as int] as int));
            }
        }
        proof {
            assert forall|q: int|
                0 <= q < p + 1 implies picks@.contains(#[trigger] order@[q]) || exists|k: int|
                    0 <= k < picks@.len() && ranks_before(keys@, #[trigger] picks@[k] as int, order@[q] as int)
                        && too_close(close@, picks@[k] as int, order@[q] as int) by {
                if q == p {
                    if clear {
                        assert(picks@[picks@.len() - 1] == order@[q]);
                    } else {
                        assert(ranks_before(keys@, picks@[witness] as int, order@[q] as int));
                    }
                } else if clear {
                    if old_picks.contains(order@[q]) {
                        let k2 = choose|k2: int| 0 <= k2 < old_picks.len() && old_picks[k2] == order@[q];
                        assert(picks@[k2] == order@[q]);
                    } else {
                        let k2 = choose|k2: int|
                            0 <= k2 < old_picks.len() && ranks_before(keys@, #[trigger] old_picks[k2] as int, order@[q] as int)
                                && too_close(close@, old_picks[k2] as int, order@[q] as int);
                        assert(picks@[k2] == old_picks[k2]);
                    }
                }
            }
        }
        p = p + 1;
    }
    proof {
        assert forall|a: int, b: int|
            0 <= a < b < picks@.len() implies ranks_before(keys@, #[trigger] picks@[a] as int, #[trigger] picks@[b] as int) by {
            assert(pos[a] < pos[b]);
        }
        assert forall|j: usize| j < keys@.len() && !(#[trigger] picks@.contains(j)) implies {
            ||| exists|k: int|
                0 <= k < picks@.len() && ranks_before(keys@, #[trigger] picks@[k] as int, j as int)
                    && too_close(close@, picks@[k] as int, j as int)
            ||| picks@.len() == limit && (limit == 0 || ranks_before(
                keys@,
                picks@[limit - 1] as int,
                j as int,
            ))
        } by {
            assert(order@.contains(j));
            let q = choose|q: int| 0 <= q < order@.len() && order@[q] == j;
            if q < p {
                assert(picks@.contains(order@[q]) || exists|k: int|
                    0 <= k < picks@.len() && ranks_before(keys@, #[trigger] picks@[k] as int, order@[q] as int)
                        && too_close(close@, picks@[k] as int, order@[q] as int));
            } else if limit > 0 {
                assert(pos[limit - 1] < q);
            }
        }
    }
    picks
}

/// The views of the candidates at the given indices, in that order.
pub open spec fn picked(cands: Seq<Snippet>, picks: Seq<usize>) -> Seq<SnippetView> {
    picks.map_values(|i: usize| cands[i as int]@)
}

/// Returns at most `limit` of the candidates, ranked by descending
/// similarity to the query, with near-duplicates of better-ranked ones left
/// out. `similarity_bits[i]` is the bit pattern of candidate `i`'s similarity
/// to the query; `close[i][j]` says whether candidates `i` and `j` are
/// near-duplicates.
pub fn dedupe(
    candidates: Vec<Snippet>,
    similarity_bits: &Vec<u32>,
    close: &Vec<Vec<bool>>,
    limit: usize,
) -> (r: Vec<Snippet>)
    requires
        similarity_bits@.len() == candidates@.len(),
        is_square(close@, candidates@.len() as int),
    ensures
        exists|picks: Seq<usize>|
            is_greedy_selection(keys_of(similarity_bits@), close@, limit as int, picks)
                && r@.map_values(|s: Snippet| s@) == picked(candidates@, picks),
{
    let n = similarity_bits.len();
    let mut keys: Vec<u32> = Vec::new();
    let mut i: usize = 0;
    while i < n
        invariant
            n == similarity_bits@.len(),
            i <= n,
            keys@ =~= keys_of(similarity_bits@).take(i as int),
        decreases n - i,
    {
        keys.push(similarity_key(similarity_bits[i]));
        i = i + 1;
    }
    assert(keys@ =~= keys_of(similarity_bits@));
    let picks = select_diverse(&keys, close, limit);
    let ghost all = candidates@;
    let mut rest = candidates;
    let mut slots: Vec<Option<Snippet>> = Vec::new();
    while rest.len() > 0
        invariant
            slots@.len() + rest@.len() == all.len(),
            rest@ == all.subrange(slots@.len() as int, all.len() as int),
            forall|q: int| 0 <= q < slots@.len() ==> #[trigger] slots@[q] == Some(all[q]),
        decreases rest@.len(),
    {
        let ghost before = rest@;
        let s = rest.remove(0);
        assert(before.drop_first() =~= rest@);
        slots.push(Some(s));
        assert(rest@ =~= all.subrange(slots@.len() as int, all.len() as int));
    }
    let mut out: Vec<Snippet> = Vec::new();
    let mut k: usize = 0;
    while k < picks.len()
        invariant
            slots@.len() == all.len(),
            all.len() == keys@.len(),
            k <= picks@.len(),
            is_greedy_selection(keys@, close@, limit as int, picks@),
            out@.len() == k,
            forall|a: int| 0 <= a < k ==> (#[trigger] out@[a])@ == all[picks@[a] as int]@,
            forall|a: int| k <= a < picks@.len() ==> slots@[#[trigger] picks@[a] as int] == Some(all[picks@[a] as int]),
        decreases picks@.len() - k,
    {
        let at = picks[k];
        let taken = slots.remove(at);
        slots.insert(at, None);
        proof {
            assert forall|a: int| k + 1 <= a < picks@.len() implies slots@[#[trigger] picks@[a] as int] == Some(all[picks@[a] as int]) by {
                assert(ranks_before(keys@, picks@[k as int] as int, picks@[a] as int));
            }
        }
        match taken {
            Some(s) => {
                out.push(s);
            },
            None => {
                assert(false);
            },
        }
        k = k + 1;
    }
    assert(out@.map_values(|s: Snippet| s@) =~= picked(all, picks@));
    out
}

/// A greedy selection holds at most `limit` candidates, ranked by descending
/// similarity to the query, ties going to the earlier candidate.
pub proof fn selection_is_bounded_and_ranked(
    keys: Seq<u32>,
    close: Seq<Vec<bool>>,
    limit: int,
    picks: Seq<usize>,
)
    requires
        is_greedy_selection(keys, close, limit, picks),
    ensures
        picks.len() <= limit,
        forall|a: int, b: int|
            0 <= a < b < picks.len() ==> keys[#[trigger] picks[a] as int] >= keys[#[trigger] picks[b] as int],
        forall|a: int, b: int|
            0 <= a < b < picks.len() && keys[picks[a] as int] == keys[picks[b] as int] ==> #[trigger] picks[a]
                < #[trigger] picks[b],
{
    assert forall|a: int, b: int| 0 <= a < b < picks.len() implies keys[#[trigger] picks[a] as int] >= keys[#[trigger] picks[b] as int] by {
        assert(ranks_before(keys, picks[a] as int, picks[b] as int));
    }
    assert forall|a: int, b: int|
        0 <= a < b < picks.len() && keys[picks[a] as int] == keys[picks[b] as int] implies #[trigger] picks[a]
            < #[trigger] picks[b] by {
        assert(ranks_before(keys, picks[a] as int, picks[b] as int));
    }
}

/// No two candidates of a greedy selection are near-duplicates.
pub proof fn selection_has_no_near_duplicates(
    keys: Seq<u32>,
    close: Seq<Vec<bool>>,
    limit: int,
    picks: Seq<usize>,
)
    requires
        is_greedy_selection(keys, close, limit, picks),
    ensures
        forall|a: int, b: int|
            0 <= a < picks.len() && 0 <= b < picks.len() && a != b ==> !too_close(
                close,
                #[trigger] picks[a] as int,
                #[trigger] picks[b] as int,
            ),
{
    assert forall|a: int, b: int|
        0 <= a < picks.len() && 0 <= b < picks.len() && a != b implies !too_close(
            close,
            #[trigger] picks[a] as int,
            #[trigger] picks[b] as int,
        ) by {
        if a < b {
            assert(!too_close(close, picks[a] as int, picks[b] as int));
        } else {
            assert(!too_close(close, picks[b] as int, picks[a] as int));
        }
    }
}

/// With no candidates, or with a limit of zero, the selection is empty.
pub proof fn selection_of_nothing_is_empty(
    keys: Seq<u32>,
    close: Seq<Vec<bool>>,
    limit: int,
    picks: Seq<usize>,
)
    requires
        is_greedy_selection(keys, close, limit, picks),
        keys.len() == 0 || limit == 0,
    ensures
        picks.len() == 0,
{
    if picks.len() > 0 {
        assert(picks[0] < keys.len());
    }
}

proof fn lemma_distinct_indices_count(picks: Seq<usize>, n: int)
    requires
        0 <= n <= usize::MAX,
        forall|a: int, b: int| 0 <= a < b < picks.len() ==> #[trigger] picks[a] != #[trigger] picks[b],
        forall|k: int| 0 <= k < picks.len() ==> #[trigger] picks[k] < n,
    ensures
        picks.len() <= n,
        (forall|j: usize| j < n ==> #[trigger] picks.contains(j)) ==> picks.len() == n,
{
    let s = picks.map_values(|x: usize| x as int);
    assert(s.no_duplicates()) by {
        assert forall|a: int, b: int| 0 <= a < s.len() && 0 <= b < s.len() && a != b implies s[a] != s[b] by {
            if a < b {
                assert(picks[a] != picks[b]);
            } else {
                assert(picks[b] != picks[a]);
            }
        }
    }
    s.unique_seq_to_set();
    vstd::set_lib::lemma_int_range(0, n);
    let range = vstd::set_lib::set_int_range(0, n);
    assert(s.to_set().subset_of(range)) by {
        assert forall|x: int| s.to_set().contains(x) implies range.contains(x) by {
            let k = choose|k: int| 0 <= k < s.len() && s[k] == x;
            assert(picks[k] < n);
        }
    }
    vstd::set_lib::lemma_len_subset(s.to_set(), range);
    if forall|j: usize| j < n ==> #[trigger] picks.contains(j) {
        assert(range.subset_of(s.to_set())) by {
            assert forall|x: int| range.contains(x) implies s.to_set().contains(x) by {
                assert(picks.contains(x as usize));
                let k = choose|k: int| 0 <= k < picks.len() && picks[k] == x as usize;
                assert(s[k] == x);
            }
        }
        vstd::set_lib::lemma_len_subset(range, s.to_set());
    }
}

/// When no two candidates are near-duplicates, the selection holds
/// `min(n, limit)` candidates, and each candidate left out ranks behind every
/// one taken: the selection is exactly the top of the ranking.
pub proof fn selection_without_duplicates_is_top(
    keys: Seq<u32>,
    close: Seq<Vec<bool>>,
    limit: int,
    picks: Seq<usize>,
)
    requires
        is_greedy_selection(keys, close, limit, picks),
        is_square(close, keys.len() as int),
        keys.len() <= usize::MAX,
        limit >= 0,
        forall|i: int, j: int|
            0 <= i < keys.len() && 0 <= j < keys.len() && i != j ==> !#[trigger] too_close(close, i, j),
    ensures
        picks.len() == if keys.len() < limit { keys.len() as int } else { limit },
        forall|j: usize, k: int|
            j < keys.len() && !(#[trigger] picks.contains(j)) && 0 <= k < picks.len() ==> ranks_before(
                keys,
                #[trigger] picks[k] as int,
                j as int,
            ),
{
    assert forall|a: int, b: int| 0 <= a < b < picks.len() implies #[trigger] picks[a] != #[trigger] picks[b] by {
        assert(ranks_before(keys, picks[a] as int, picks[b] as int));
    }
    assert forall|j: usize| j < keys.len() && !(#[trigger] picks.contains(j)) implies picks.len() == limit && (limit == 0
        || ranks_before(keys, picks[limit - 1] as int, j as int)) by {
        if exists|k: int|
            0 <= k < picks.len() && ranks_before(keys, #[trigger] picks[k] as int, j as int)
                && too_close(close, picks[k] as int, j as int) {
            let k = choose|k: int|
                0 <= k < picks.len() && ranks_before(keys, #[trigger] picks[k] as int, j as int)
                    && too_close(close, picks[k] as int, j as int);
            assert(picks[k] as int != j as int);
            assert(!too_close(close, picks[k] as int, j as int));
        }
    }
    lemma_distinct_indices_count(picks, keys.len() as int);
    if picks.len() < limit {
        assert forall|j: usize| j < keys.len() implies #[trigger] picks.contains(j) by {
        }
    }
    assert forall|j: usize, k: int|
        j < keys.len() && !(#[trigger] picks.contains(j)) && 0 <= k < picks.len() implies ranks_before(
            keys,
            #[trigger] picks[k] as int,
            j as int,
        ) by {
        if k < picks.len() - 1 {
            assert(ranks_before(keys, picks[k] as int, picks[picks.len() - 1] as int));
        }
    }
}

/// Two greedy selections agree up to `k`, and the first goes on past it: the
/// second goes on too, with a candidate that the first's does not rank ahead
/// of.
proof fn lemma_greedy_no_divergence(
    keys: Seq<u32>,
    close: Seq<Vec<bool>>,
    limit: int,
    first: Seq<usize>,
    second: Seq<usize>,
    k: int,
)
    requires
        is_greedy_selection(keys, close, limit, first),
        is_greedy_selection(keys, close, limit, second),
        0 <= k < first.len(),
        k <= second.len(),
        forall|i: int| 0 <= i < k ==> first[i] == second[i],
    ensures
        k < second.len(),
        !ranks_before(keys, first[k] as int, second[k] as int),
{
    if k >= second.len() || ranks_before(keys, first[k] as int, second[k] as int) {
        let x = first[k];
        if second.contains(x) {
            let m = choose|m: int| 0 <= m < second.len() && second[m] == x;
            if m < k {
                assert(first[m] == x);
                assert(ranks_before(keys, first[m] as int, first[k] as int));
            } else if m == k {
            } else {
                assert(ranks_before(keys, second[k] as int, second[m] as int));
            }
        } else {
            if exists|m: int|
                0 <= m < second.len() && ranks_before(keys, #[trigger] second[m] as int, x as int)
                    && too_close(close, second[m] as int, x as int) {
                let m = choose|m: int|
                    0 <= m < second.len() && ranks_before(keys, #[trigger] second[m] as int, x as int)
                        && too_close(close, second[m] as int, x as int);
                if m < k {
                    assert(first[m] == second[m]);
                    assert(!too_close(close, first[m] as int, first[k] as int));
                } else if m == k {
                } else {
                    assert(ranks_before(keys, second[k] as int, second[m] as int));
                }
            } else {
                assert(second.len() == limit);
                if k < second.len() {
                    if limit - 1 > k {
                        assert(ranks_before(keys, second[k] as int, second[limit - 1] as int));
                    }
                }
            }
        }
    }
}

proof fn lemma_greedy_agree_from(
    keys: Seq<u32>,
    close: Seq<Vec<bool>>,
    limit: int,
    first: Seq<usize>,
    second: Seq<usize>,
    i: int,
)
    requires
        is_greedy_selection(keys, close, limit, first),
        is_greedy_selection(keys, close, limit, second),
        0 <= i <= first.len(),
        i <= second.len(),
        forall|j: int| 0 <= j < i ==> first[j] == second[j],
    ensures
        first == second,
    decreases first.len() - i,
{
    if i == first.len() && i == second.len() {
        assert(first =~= second);
    } else if i == second.len() {
        lemma_greedy_no_divergence(keys, close, limit, first, second, i);
    } else if i == first.len() {
        lemma_greedy_no_divergence(keys, close, limit, second, first, i);
    } else if first[i] == second[i] {
        lemma_greedy_agree_from(keys, close, limit, first, second, i + 1);
    } else if ranks_before(keys, first[i] as int, second[i] as int) {
        lemma_greedy_no_divergence(keys, close, limit, first, second, i);
    } else {
        lemma_greedy_no_divergence(keys, close, limit, second, first, i);
    }
}

/// The greedy selection is unique: two selections that both meet its
/// definition for the same ranking, closeness and limit are equal.
pub proof fn greedy_selection_is_unique(
    keys: Seq<u32>,
    close: Seq<Vec<bool>>,
    limit: int,
    first: Seq<usize>,
    second: Seq<usize>,
)
    requires
        is_greedy_selection(keys, close, limit, first),
        is_greedy_selection(keys, close, limit, second),
    ensures
        first == second,
{
    lemma_greedy_agree_from(keys, close, limit, first, second, 0);
}

} // verus!
