//! The tag layout decision: given the display widths of a row of tags and a
//! width budget, decide whether the tags fit, and if not, the single
//! truncation length applied uniformly to every tag wider than it.
//!
//! The algorithm sorts a copy of the widths descending and iteratively
//! simulates cutting the widest tags down to the next distinct width,
//! accumulating the recovered space, until the row fits; the final cutoff is
//! the last candidate width plus an even split of the remaining slack,
//! floored at a minimum readable tag width. For the same multiset of widths
//! and the same budget the cutoff is always identical, whatever the input
//! order.

use vstd::multiset::Multiset;
use vstd::prelude::*;

verus! {

/// Tags truncated below this width are unreadable; the cutoff never goes
/// under it (a renderer drops such tags instead).
pub const MIN_LEN_TAGS: usize = 4;

/// The widths as mathematical integers.
pub open spec fn int_widths_of(s: Seq<usize>) -> Seq<int> {
    s.map_values(|w: usize| w as int)
}

/// The smaller of a width and a cutoff.
pub open spec fn min_cap(w: int, c: int) -> int {
    if w < c {
        w
    } else {
        c
    }
}

/// The sum of all widths.
pub open spec fn width_sum(ws: Seq<int>) -> int
    decreases ws.len(),
{
    if ws.len() == 0 {
        0
    } else {
        width_sum(ws.drop_last()) + ws.last()
    }
}

/// The sum of all widths, each capped at `c`.
pub open spec fn capped_sum(ws: Seq<int>, c: int) -> int
    decreases ws.len(),
{
    if ws.len() == 0 {
        0
    } else {
        capped_sum(ws.drop_last(), c) + min_cap(ws.last(), c)
    }
}

/// The width of the whole row when every tag is cut to `c`: the capped
/// widths plus one separator cell between adjacent tags.
pub open spec fn packed_width(ws: Seq<int>, c: int) -> int {
    ws.len() - 1 + capped_sum(ws, c)
}

/// The largest cutoff at most `c` at which the row fits the budget, or zero
/// when none does.
pub open spec fn best_cutoff(ws: Seq<int>, budget: int, c: int) -> int
    decreases
            if c >= 0 {
                c
            } else {
                0
            },
{
    if c <= 0 {
        0
    } else if packed_width(ws, c) <= budget {
        c
    } else {
        best_cutoff(ws, budget, c - 1)
    }
}

/// The layout decision: `None` when the row fits untruncated, otherwise the
/// uniform cutoff, floored at the minimum readable tag width.
pub open spec fn pack_spec(ws: Seq<int>, budget: int) -> Option<int> {
    if ws.len() == 0 || ws.len() - 1 + width_sum(ws) <= budget {
        None
    } else {
        let best = best_cutoff(ws, budget, width_sum(ws));
        Some(
            if best > MIN_LEN_TAGS as int {
                best
            } else {
                MIN_LEN_TAGS as int
            },
        )
    }
}

proof fn lemma_width_sum_remove(s: Seq<int>, i: int)
    requires
        0 <= i < s.len(),
    ensures
        width_sum(s) == width_sum(s.remove(i)) + s[i],
    decreases s.len(),
{
    if i == s.len() - 1 {
        assert(s.remove(i) =~= s.drop_last());
    } else {
        lemma_width_sum_remove(s.drop_last(), i);
        assert(s.remove(i).drop_last() =~= s.drop_last().remove(i));
        assert(s.remove(i).last() == s.last());
    }
}

proof fn lemma_capped_sum_remove(s: Seq<int>, c: int, i: int)
    requires
        0 <= i < s.len(),
    ensures
        capped_sum(s, c) == capped_sum(s.remove(i), c) + min_cap(s[i], c),
    decreases s.len(),
{
    if i == s.len() - 1 {
        assert(s.remove(i) =~= s.drop_last());
    } else {
        lemma_capped_sum_remove(s.drop_last(), c, i);
        assert(s.remove(i).drop_last() =~= s.drop_last().remove(i));
        assert(s.remove(i).last() == s.last());
    }
}

/// The plain sum depends only on the multiset of widths.
proof fn lemma_width_sum_permutation(a: Seq<int>, b: Seq<int>)
    requires
        a.to_multiset() == b.to_multiset(),
    ensures
        width_sum(a) == width_sum(b),
    decreases a.len(),
{
    broadcast use vstd::seq_lib::group_to_multiset_ensures;
    broadcast use vstd::multiset::group_multiset_axioms;

    if a.len() == 0 {
        vstd::seq_lib::to_multiset_len(a);
        vstd::seq_lib::to_multiset_len(b);
        assert(b.len() == 0);
    } else {
        let x = a.last();
        assert(a.contains(x));
        vstd::seq_lib::to_multiset_contains(a, x);
        vstd::seq_lib::to_multiset_contains(b, x);
        assert(b.to_multiset().count(x) > 0);
        assert(b.contains(x));
        let i = choose|i: int| 0 <= i < b.len() && b[i] == x;
        assert(a.drop_last() =~= a.remove(a.len() - 1));
        vstd::seq_lib::to_multiset_remove(a, a.len() - 1);
        vstd::seq_lib::to_multiset_remove(b, i);
        assert(a.remove(a.len() - 1).to_multiset() =~= a.to_multiset().remove(x));
        assert(b.remove(i).to_multiset() =~= b.to_multiset().remove(x));
        lemma_width_sum_permutation(a.drop_last(), b.remove(i));
        lemma_width_sum_remove(b, i);
    }
}

/// The capped sum depends only on the multiset of widths.
proof fn lemma_capped_sum_permutation(a: Seq<int>, b: Seq<int>, c: int)
    requires
        a.to_multiset() == b.to_multiset(),
    ensures
        capped_sum(a, c) == capped_sum(b, c),
    decreases a.len(),
{
    broadcast use vstd::seq_lib::group_to_multiset_ensures;
    broadcast use vstd::multiset::group_multiset_axioms;

    if a.len() == 0 {
        vstd::seq_lib::to_multiset_len(a);
        vstd::seq_lib::to_multiset_len(b);
        assert(b.len() == 0);
    } else {
        let x = a.last();
        assert(a.contains(x));
        vstd::seq_lib::to_multiset_contains(a, x);
        vstd::seq_lib::to_multiset_contains(b, x);
        assert(b.to_multiset().count(x) > 0);
        assert(b.contains(x));
        let i = choose|i: int| 0 <= i < b.len() && b[i] == x;
        assert(a.drop_last() =~= a.remove(a.len() - 1));
        vstd::seq_lib::to_multiset_remove(a, a.len() - 1);
        vstd::seq_lib::to_multiset_remove(b, i);
        assert(a.remove(a.len() - 1).to_multiset() =~= a.to_multiset().remove(x));
        assert(b.remove(i).to_multiset() =~= b.to_multiset().remove(x));
        lemma_capped_sum_permutation(a.drop_last(), b.remove(i), c);
        lemma_capped_sum_remove(b, c, i);
    }
}

/// With the widths split at `k` around the cutoff, the capped sum is the
/// cutoff for each wide tag plus the plain sum of the narrow ones.
proof fn lemma_capped_sum_split(s: Seq<int>, c: int, k: int)
    requires
        0 <= k <= s.len(),
        forall|i: int| 0 <= i < k ==> s[i] >= c,
        forall|i: int| k <= i < s.len() ==> s[i] <= c,
    ensures
        capped_sum(s, c) == c * k + width_sum(s.skip(k)),
    decreases s.len(),
{
    if s.len() == 0 {
        assert(s.skip(k) =~= s);
        assert(c * 0 == 0) by (nonlinear_arith);
    } else if k == s.len() {
        assert forall|i: int| 0 <= i < k - 1 implies s.drop_last()[i] >= c by {
            assert(s[i] >= c);
        }
        lemma_capped_sum_split(s.drop_last(), c, k - 1);
        assert(s.drop_last().skip(k - 1) =~= Seq::<int>::empty());
        assert(s.skip(k) =~= Seq::<int>::empty());
        assert(min_cap(s.last(), c) == c);
        assert(c * (k - 1) + c == c * k) by (nonlinear_arith);
    } else {
        assert forall|i: int| 0 <= i < k implies s.drop_last()[i] >= c by {
            assert(s[i] >= c);
        }
        assert forall|i: int| k <= i < s.drop_last().len() implies s.drop_last()[i] <= c by {
            assert(s[i] <= c);
        }
        lemma_capped_sum_split(s.drop_last(), c, k);
        assert(s.skip(k).drop_last() =~= s.drop_last().skip(k));
        assert(s.skip(k).last() == s.last());
        assert(min_cap(s.last(), c) == s.last());
    }
}

/// A larger cutoff never shrinks the capped sum.
proof fn lemma_capped_sum_monotone(s: Seq<int>, c1: int, c2: int)
    requires
        c1 <= c2,
    ensures
        capped_sum(s, c1) <= capped_sum(s, c2),
    decreases s.len(),
{
    if s.len() > 0 {
        lemma_capped_sum_monotone(s.drop_last(), c1, c2);
    }
}

/// A cutoff that fits while the next one up does not is the best cutoff.
proof fn lemma_best_cutoff_pins(ws: Seq<int>, budget: int, x0: int, c0: int)
    requires
        0 <= x0 <= c0,
        packed_width(ws, x0) <= budget,
        packed_width(ws, x0 + 1) > budget,
    ensures
        best_cutoff(ws, budget, c0) == x0,
    decreases c0,
{
    if c0 == x0 {
        if c0 > 0 {
        }
    } else {
        lemma_capped_sum_monotone(ws, x0 + 1, c0);
        assert(packed_width(ws, c0) > budget);
        lemma_best_cutoff_pins(ws, budget, x0, c0 - 1);
    }
}

/// When even cutting everything to nothing overflows the budget, the best
/// cutoff bottoms out at zero.
proof fn lemma_best_cutoff_zero(ws: Seq<int>, budget: int, c0: int)
    requires
        packed_width(ws, 0) > budget,
    ensures
        best_cutoff(ws, budget, c0) == 0,
    decreases
            if c0 >= 0 {
                c0
            } else {
                0
            },
{
    if c0 > 0 {
        lemma_capped_sum_monotone(ws, 0, c0);
        lemma_best_cutoff_zero(ws, budget, c0 - 1);
    }
}

proof fn lemma_best_cutoff_permutation(a: Seq<int>, b: Seq<int>, budget: int, c: int)
    requires
        a.to_multiset() == b.to_multiset(),
    ensures
        best_cutoff(a, budget, c) == best_cutoff(b, budget, c),
    decreases
            if c >= 0 {
                c
            } else {
                0
            },
{
    broadcast use vstd::seq_lib::group_to_multiset_ensures;
    broadcast use vstd::multiset::group_multiset_axioms;

    vstd::seq_lib::to_multiset_len(a);
    vstd::seq_lib::to_multiset_len(b);
    if c > 0 {
        lemma_capped_sum_permutation(a, b, c);
        lemma_best_cutoff_permutation(a, b, budget, c - 1);
    }
}

/// The layout decision is deterministic over the multiset of widths:
/// permuting the input width list produces the same truncation cutoff.
pub proof fn lemma_pack_permutation(a: Seq<int>, b: Seq<int>, budget: int)
    requires
        a.to_multiset() == b.to_multiset(),
    ensures
        pack_spec(a, budget) == pack_spec(b, budget),
{
    broadcast use vstd::seq_lib::group_to_multiset_ensures;
    broadcast use vstd::multiset::group_multiset_axioms;

    vstd::seq_lib::to_multiset_len(a);
    vstd::seq_lib::to_multiset_len(b);
    assert(a.len() == b.len());
    lemma_width_sum_permutation(a, b);
    lemma_best_cutoff_permutation(a, b, budget, width_sum(a));
}

/// Every width stands below the plain sum of nonnegative widths.
proof fn lemma_width_sum_element(s: Seq<int>, i: int)
    requires
        0 <= i < s.len(),
        forall|j: int| 0 <= j < s.len() ==> s[j] >= 0,
    ensures
        width_sum(s) >= s[i],
        width_sum(s) >= 0,
    decreases s.len(),
{
    reveal_with_fuel(width_sum, 2);
    assert(s[i] >= 0);
    if s.len() > 1 {
        assert forall|j: int| 0 <= j < s.drop_last().len() implies s.drop_last()[j] >= 0 by {
            assert(s[j] >= 0);
        }
    }
    if i == s.len() - 1 {
        if s.len() > 1 {
            lemma_width_sum_element(s.drop_last(), 0);
        }
    } else {
        lemma_width_sum_element(s.drop_last(), i);
    }
}

proof fn lemma_width_sum_bound(s: Seq<int>)
    requires
        forall|j: int| 0 <= j < s.len() ==> 0 <= #[trigger] s[j] < 0x1_0000_0000_0000_0000,
    ensures
        0 <= width_sum(s) <= s.len() * 0xffff_ffff_ffff_ffff,
    decreases s.len(),
{
    if s.len() > 0 {
        lemma_width_sum_bound(s.drop_last());
        assert(s.len() * 0xffff_ffff_ffff_ffff == (s.len() - 1) * 0xffff_ffff_ffff_ffff
            + 0xffff_ffff_ffff_ffff) by (nonlinear_arith);
    }
}

/// Whether the widths are sorted in descending order.
pub open spec fn sorted_desc(s: Seq<int>) -> bool {
    forall|i: int, j: int| 0 <= i < j < s.len() ==> s[i] >= s[j]
}

/// The index of a largest element.
fn find_max_index(v: &Vec<u128>) -> (r: usize)
    requires
        v@.len() > 0,
    ensures
        r < v@.len(),
        forall|i: int| 0 <= i < v@.len() ==> v@[i] <= v@[r as int],
{
    let mut best: usize = 0;
    let mut i: usize = 1;
    let n = v.len();
    while i < n
        invariant
            best < i <= n,
            n == v@.len(),
            forall|j: int| 0 <= j < i ==> v@[j] <= v@[best as int],
        decreases n - i,
    {
        if v[i] > v[best] {
            best = i;
        }
        i += 1;
    }
    best
}

/// The widths as mathematical integers.
pub open spec fn int_of_u128s(s: Seq<u128>) -> Seq<int> {
    s.map_values(|w: u128| w as int)
}

/// A copy of the widths, sorted descending; the original order is untouched.
fn sort_desc(v: &Vec<u128>) -> (r: Vec<u128>)
    ensures
        r@.len() == v@.len(),
        sorted_desc(int_of_u128s(r@)),
        int_of_u128s(r@).to_multiset() == int_of_u128s(v@).to_multiset(),
{
    broadcast use vstd::seq_lib::group_to_multiset_ensures;
    broadcast use vstd::multiset::group_multiset_axioms;

    let mut src = v.clone();
    proof {
        assert forall|i: int| 0 <= i < src@.len() implies src@[i] == v@[i] by {
            assert(cloned::<u128>(v@[i], src@[i]));
        }
        assert(src@ =~= v@);
    }
    let mut out: Vec<u128> = Vec::new();
    while src.len() > 0
        invariant
            out@.len() + src@.len() == v@.len(),
            sorted_desc(int_of_u128s(out@)),
            forall|i: int, j: int|
                0 <= i < out@.len() && 0 <= j < src@.len() ==> int_of_u128s(out@)[i]
                    >= int_of_u128s(src@)[j],
            int_of_u128s(out@).to_multiset().add(int_of_u128s(src@).to_multiset())
                == int_of_u128s(v@).to_multiset(),
        decreases src@.len(),
    {
        let ghost prev_src = src@;
        let ghost prev_out = out@;
        let m = find_max_index(&src);
        let x = src.remove(m);
        out.push(x);
        proof {
            assert(int_of_u128s(src@) =~= int_of_u128s(prev_src).remove(m as int));
            assert(int_of_u128s(out@) =~= int_of_u128s(prev_out).push(x as int));
            assert(int_of_u128s(prev_src)[m as int] == x as int);
            vstd::seq_lib::to_multiset_remove(int_of_u128s(prev_src), m as int);
            vstd::seq_lib::to_multiset_build(int_of_u128s(prev_out), x as int);
            assert(int_of_u128s(prev_src).remove(m as int).to_multiset() =~= int_of_u128s(
                prev_src,
            ).to_multiset().remove(x as int));
            assert(int_of_u128s(prev_out).push(x as int).to_multiset() =~= int_of_u128s(
                prev_out,
            ).to_multiset().insert(x as int));
            assert forall|i: int, j: int|
                0 <= i < out@.len() && 0 <= j < src@.len() implies int_of_u128s(out@)[i]
                >= int_of_u128s(src@)[j] by {
                let j0: int = if j < m {
                    j
                } else {
                    j + 1
                };
                assert(int_of_u128s(src@)[j] == int_of_u128s(prev_src)[j0]);
                if i < out@.len() - 1 {
                    assert(int_of_u128s(out@)[i] == int_of_u128s(prev_out)[i]);
                } else {
                    assert(int_of_u128s(out@)[i] == x as int);
                    assert(int_of_u128s(prev_src)[j0] <= x as int);
                }
            }
            assert forall|i: int, j: int|
                0 <= i < j < out@.len() implies int_of_u128s(out@)[i] >= int_of_u128s(out@)[j] by {
                if j < out@.len() - 1 {
                    assert(int_of_u128s(out@)[i] == int_of_u128s(prev_out)[i]);
                    assert(int_of_u128s(out@)[j] == int_of_u128s(prev_out)[j]);
                } else {
                    assert(int_of_u128s(out@)[i] == int_of_u128s(prev_out)[i]);
                    assert(int_of_u128s(prev_out)[i] >= int_of_u128s(prev_src)[m as int]);
                }
            }
            assert(int_of_u128s(prev_src).contains(x as int)) by {
                assert(int_of_u128s(prev_src)[m as int] == x as int);
            }
            vstd::seq_lib::to_multiset_contains(int_of_u128s(prev_src), x as int);
            assert(int_of_u128s(prev_src).to_multiset().count(x as int) > 0);
            assert(int_of_u128s(out@).to_multiset().add(int_of_u128s(src@).to_multiset())
                =~= int_of_u128s(v@).to_multiset());
        }
    }
    proof {
        broadcast use vstd::multiset::group_multiset_axioms;

        vstd::seq_lib::to_multiset_len(int_of_u128s(src@));
        vstd::multiset::lemma_multiset_empty_len(int_of_u128s(src@).to_multiset());
        assert(int_of_u128s(src@).to_multiset() =~= Multiset::<int>::empty());
        assert(int_of_u128s(out@).to_multiset().add(Multiset::<int>::empty()) =~= int_of_u128s(
            out@,
        ).to_multiset());
    }
    out
}

/// Decide the tag truncation: `None` when the whole row of tags fits the
/// budget (counting one separator cell between adjacent tags), otherwise the
/// single cutoff applied uniformly to every tag wider than it.
pub fn calc_truncation(widths: &Vec<usize>, budget: usize) -> (r: Option<usize>)
    ensures
        r matches Some(c) ==> Some(c as int) == pack_spec(int_widths_of(widths@), budget as int),
        r is None ==> pack_spec(int_widths_of(widths@), budget as int) is None,
{
    let ghost views = int_widths_of(widths@);
    let n = widths.len();
    if n == 0 {
        return None;
    }
    // The total width, in 128 bits so that no sum can overflow.
    let mut ws: Vec<u128> = Vec::new();
    let mut total: u128 = 0;
    let mut i: usize = 0;
    while i < n
        invariant
            i <= n,
            n == widths@.len(),
            views == int_widths_of(widths@),
            ws@.len() == i,
            int_of_u128s(ws@) == views.take(i as int),
            total == width_sum(views.take(i as int)),
            forall|j: int| 0 <= j < i ==> #[trigger] int_of_u128s(ws@)[j]
                < 0x1_0000_0000_0000_0000,
        decreases n - i,
    {
        proof {
            lemma_width_sum_bound(views.take(i as int));
        }
        let w = widths[i];
        ws.push(w as u128);
        total = total + (w as u128);
        proof {
            assert(views.take(i + 1).drop_last() =~= views.take(i as int));
            assert(views.take(i + 1).last() == views[i as int]);
            assert(int_of_u128s(ws@) =~= views.take(i + 1));
        }
        i += 1;
    }
    proof {
        assert(views.take(n as int) =~= views);
        lemma_width_sum_bound(views);
    }
    let total_with_sep: u128 = total + (n as u128) - 1;
    if total_with_sep <= budget as u128 {
        return None;
    }
    let sorted = sort_desc(&ws);
    let ghost svs = int_of_u128s(sorted@);
    proof {
        lemma_capped_sum_permutation(svs, views, svs[0]);
        lemma_capped_sum_split(svs, svs[0], 0);
        assert(svs.skip(0) =~= svs);
        assert(svs[0] * 0 == 0) by (nonlinear_arith);
        lemma_width_sum_permutation(svs, views);
        broadcast use vstd::seq_lib::group_to_multiset_ensures;
        broadcast use vstd::multiset::group_multiset_axioms;

        vstd::seq_lib::to_multiset_len(svs);
        vstd::seq_lib::to_multiset_len(views);
        assert(svs.to_multiset().len() == views.to_multiset().len());
        assert forall|j: int| 0 <= j < svs.len() implies 0 <= #[trigger] svs[j]
            < 0x1_0000_0000_0000_0000 by {
            assert(svs.contains(svs[j]));
            vstd::seq_lib::to_multiset_contains(svs, svs[j]);
            vstd::seq_lib::to_multiset_contains(views, svs[j]);
            assert(views.to_multiset().count(svs[j]) > 0);
            assert(views.contains(svs[j]));
            let q = choose|q: int| 0 <= q < views.len() && views[q] == svs[j];
            assert(views[q] == widths@[q] as int);
        }
    }
    let mut cnt: usize = 0;
    let mut t: u128 = sorted[0];
    let mut total_w: u128 = total_with_sep;
    let mut result: u128 = 0;
    loop
        invariant_except_break
            1 <= n == svs.len(),
            n == sorted@.len(),
            svs == int_of_u128s(sorted@),
            sorted_desc(svs),
            forall|j: int| 0 <= j < svs.len() ==> 0 <= #[trigger] svs[j]
                < 0x1_0000_0000_0000_0000,
            cnt < n,
            svs[cnt as int] == t as int,
            forall|j: int| 0 <= j < cnt ==> svs[j] > t as int,
            total_w as int == packed_width(svs, t as int),
            total_w > budget as u128,
        ensures
            forall|j: int| 0 <= j < svs.len() ==> 0 <= #[trigger] svs[j]
                < 0x1_0000_0000_0000_0000,
            (result == 0 && packed_width(svs, 0) > budget as int) || (packed_width(
                svs,
                result as int,
            ) <= budget as int && packed_width(svs, result as int + 1) > budget as int),
            result as int <= svs[0],
        decreases t,
    {
        // Skip every remaining tag that already has the current width.
        let mut c2: usize = cnt + 1;
        loop
            invariant
                cnt < c2 <= n,
                n == sorted@.len(),
                svs == int_of_u128s(sorted@),
                sorted_desc(svs),
                svs[cnt as int] == t as int,
                forall|j: int| 0 <= j < cnt ==> svs[j] > t as int,
                forall|j: int| cnt <= j < c2 ==> svs[j] == t as int,
            ensures
                cnt < c2 <= n,
                forall|j: int| 0 <= j < c2 ==> svs[j] >= t as int,
                c2 < n ==> svs[c2 as int] < t as int,
                forall|j: int| cnt <= j < c2 ==> svs[j] == t as int,
            decreases n - c2,
        {
            if c2 >= n {
                break ;
            }
            if sorted[c2] != t {
                proof {
                    assert(svs[c2 as int] <= svs[cnt as int]);
                }
                break ;
            }
            c2 += 1;
        }
        let new_t: u128 = if c2 < n {
            sorted[c2]
        } else {
            0
        };
        proof {
            assert forall|j: int| 0 <= j < c2 implies svs[j] >= t as int by {}
            assert forall|j: int| c2 <= j < svs.len() implies svs[j] <= new_t as int by {
                if c2 < n {
                    assert(svs[j] <= svs[c2 as int]);
                }
            }
            lemma_capped_sum_split(svs, t as int, c2 as int);
            lemma_capped_sum_split(svs, new_t as int, c2 as int);
            assert((t as int) * (c2 as int) - (new_t as int) * (c2 as int) == ((t - new_t) as int)
                * (c2 as int)) by (nonlinear_arith)
                requires
                    new_t <= t,
            ;
            assert(((t - new_t) as int) * (c2 as int) <= total_w as int) by {
                assert(packed_width(svs, new_t as int) >= new_t as int * c2 as int + width_sum(
                    svs.skip(c2 as int),
                )) by {}
                assert(width_sum(svs.skip(c2 as int)) >= 0) by {
                    if svs.skip(c2 as int).len() > 0 {
                        assert forall|j: int|
                            0 <= j < svs.skip(c2 as int).len() implies svs.skip(c2 as int)[j]
                            >= 0 by {
                            assert(svs[c2 + j] >= 0);
                        }
                        lemma_width_sum_element(svs.skip(c2 as int), 0);
                    }
                }
                assert((new_t as int) * (c2 as int) >= 0) by (nonlinear_arith);
            }
        }
        let delta: u128 = (t - new_t) * (c2 as u128);
        let new_total: u128 = total_w - delta;
        proof {
            assert(new_total as int == packed_width(svs, new_t as int));
        }
        if new_total <= budget as u128 {
            let d: u128 = (budget as u128 - new_total) / (c2 as u128);
            result = new_t + d;
            proof {
                let b = budget as int;
                let w0 = new_total as int;
                let c2i = c2 as int;
                let di = d as int;
                assert(di == (b - w0) / c2i);
                assert(di * c2i <= b - w0 < (di + 1) * c2i) by (nonlinear_arith)
                    requires
                        di == (b - w0) / c2i,
                        c2i >= 1,
                        b - w0 >= 0,
                ;
                // The result stays below the previous distinct width.
                assert((t as int - new_t as int) * c2i > b - w0) by {
                    assert(total_w as int - new_total as int == (t as int - new_t as int) * c2i);
                }
                assert(di < t as int - new_t as int) by (nonlinear_arith)
                    requires
                        di * c2i <= b - w0,
                        (t as int - new_t as int) * c2i > b - w0,
                        c2i >= 1,
                        di >= 0,
                ;
                assert(result as int == new_t as int + di);
                assert(result < t);
                // The packed width is linear between the two distinct widths.
                lemma_capped_sum_split(svs, result as int, c2 as int);
                lemma_capped_sum_split(svs, result as int + 1, c2 as int);
                assert((result as int) * c2i - (new_t as int) * c2i == di * c2i)
                    by (nonlinear_arith)
                    requires
                        result as int == new_t as int + di,
                ;
                assert((result as int + 1) * c2i - (new_t as int) * c2i == (di + 1) * c2i)
                    by (nonlinear_arith)
                    requires
                        result as int == new_t as int + di,
                ;
                assert(packed_width(svs, result as int) == w0 + di * c2i);
                assert(packed_width(svs, result as int + 1) == w0 + (di + 1) * c2i);
                assert(result as int <= svs[0]) by {
                    assert(svs[0] >= svs[cnt as int]);
                }
            }
            break ;
        } else if new_t == 0 {
            result = 0;
            proof {
                assert(packed_width(svs, 0) == new_total as int);
                assert(svs[0] >= 0);
            }
            break ;
        } else {
            proof {
                assert(new_t < t) by {
                    assert(svs[c2 as int] < t as int);
                }
            }
            t = new_t;
            cnt = c2;
            total_w = new_total;
        }
    }
    proof {
        lemma_capped_sum_permutation(svs, views, result as int);
        lemma_capped_sum_permutation(svs, views, result as int + 1);
        lemma_capped_sum_permutation(svs, views, 0);
        assert(svs.len() == views.len()) by {
            vstd::seq_lib::to_multiset_len(svs);
            vstd::seq_lib::to_multiset_len(views);
        }
        if result == 0 && packed_width(svs, 0) > budget as int {
            lemma_best_cutoff_zero(views, budget as int, width_sum(views));
        } else {
            assert(result as int <= width_sum(views)) by {
                broadcast use vstd::seq_lib::group_to_multiset_ensures;

                assert(svs.contains(svs[0]));
                vstd::seq_lib::to_multiset_contains(svs, svs[0]);
                vstd::seq_lib::to_multiset_contains(views, svs[0]);
                assert(views.to_multiset().count(svs[0]) > 0);
                assert(views.contains(svs[0]));
                let q = choose|q: int| 0 <= q < views.len() && views[q] == svs[0];
                assert forall|j: int| 0 <= j < views.len() implies views[j] >= 0 by {
                    assert(views[j] == widths@[j] as int);
                }
                lemma_width_sum_element(views, q);
            }
            lemma_best_cutoff_pins(views, budget as int, result as int, width_sum(views));
        }
    }
    let result_usize: usize = result as usize;
    if result_usize > MIN_LEN_TAGS {
        Some(result_usize)
    } else {
        Some(MIN_LEN_TAGS)
    }
}

/// Style of bracket drawn around the counter and tag row.
#[derive(PartialEq, Eq, Structural, Debug, Clone, Copy)]
pub enum BracketStyle {
    /// `|` on both sides.
    Line,
    /// `[` and `]`.
    Square,
    /// `<` and `>`.
    Angle,
    /// `(` and `)`.
    Round,
}

/// The opening character of a bracket style.
pub open spec fn left_bracket(b: BracketStyle) -> char {
    match b {
        BracketStyle::Line => '|',
        BracketStyle::Square => '[',
        BracketStyle::Angle => '<',
        BracketStyle::Round => '(',
    }
}

/// The closing character of a bracket style.
pub open spec fn right_bracket(b: BracketStyle) -> char {
    match b {
        BracketStyle::Line => '|',
        BracketStyle::Square => ']',
        BracketStyle::Angle => '>',
        BracketStyle::Round => ')',
    }
}

impl BracketStyle {
    /// The opening character.
    pub fn left(&self) -> (r: char)
        ensures
            r == left_bracket(*self),
    {
        match self {
            BracketStyle::Line => '|',
            BracketStyle::Square => '[',
            BracketStyle::Angle => '<',
            BracketStyle::Round => '(',
        }
    }

    /// The opening character, as a string slice.
    pub fn left_str(&self) -> (r: &'static str)
        ensures
            r@ =~= seq![left_bracket(*self)],
    {
        proof {
            reveal_strlit("|");
            reveal_strlit("[");
            reveal_strlit("<");
            reveal_strlit("(");
        }
        match self {
            BracketStyle::Line => "|",
            BracketStyle::Square => "[",
            BracketStyle::Angle => "<",
            BracketStyle::Round => "(",
        }
    }

    /// The closing character.
    pub fn right(&self) -> (r: char)
        ensures
            r == right_bracket(*self),
    {
        match self {
            BracketStyle::Line => '|',
            BracketStyle::Square => ']',
            BracketStyle::Angle => '>',
            BracketStyle::Round => ')',
        }
    }

    /// The closing character, as a string slice.
    pub fn right_str(&self) -> (r: &'static str)
        ensures
            r@ =~= seq![right_bracket(*self)],
    {
        proof {
            reveal_strlit("|");
            reveal_strlit("]");
            reveal_strlit(">");
            reveal_strlit(")");
        }
        match self {
            BracketStyle::Line => "|",
            BracketStyle::Square => "]",
            BracketStyle::Angle => ">",
            BracketStyle::Round => ")",
        }
    }
}

/// A specific bracket style configuration.
pub struct BracketConfig {
    pub left: BracketStyle,
    pub right: BracketStyle,
}

/// The display width of a string, in terminal cells: a pure function of its
/// characters alone.
pub uninterp spec fn display_width(s: Seq<char>) -> nat;

/// Relies on unicode_width's `UnicodeWidthStr::width`: a table-driven,
/// panic-free function of the characters alone; the empty string has
/// width zero.
#[verifier::external_body]
fn str_display_width(s: &str) -> (r: usize)
    ensures
        r == display_width(s@),
        s@.len() == 0 ==> r == 0,
{
    unicode_width::UnicodeWidthStr::width(s)
}

/// The display widths of a row of tags, one per tag.
pub fn tag_widths(tags: &Vec<String>) -> (r: Vec<usize>)
    ensures
        r@.len() == tags@.len(),
        forall|i: int| 0 <= i < r@.len() ==> r@[i] == display_width(tags@[i]@),
{
    let mut widths: Vec<usize> = Vec::new();
    let n = tags.len();
    let mut i: usize = 0;
    while i < n
        invariant
            i <= n,
            n == tags@.len(),
            widths@.len() == i,
            forall|j: int| 0 <= j < i ==> widths@[j] == display_width(tags@[j]@),
        decreases n - i,
    {
        widths.push(str_display_width(tags[i].as_str()));
        i += 1;
    }
    widths
}

/// Cut a string down to the longest prefix whose display width fits the
/// bound. The scan walks every character boundary, so a bound falling
/// inside a ligature lands before it, and the measure is the one
/// `display_width` names throughout.
pub fn truncate_to_display_width<'a>(s: &'a str, max_width: usize) -> (r: (&'a str, usize))
    ensures
        r.0@.is_prefix_of(s@),
        r.1 == display_width(r.0@),
        r.1 <= max_width,
        forall|j: int|
            r.0@.len() < j <= s@.len() ==> display_width(#[trigger] s@.take(j)) > max_width,
        display_width(s@) <= max_width ==> r.0@ == s@,
{
    let n = s.unicode_len();
    let empty = s.substring_char(0, 0);
    let mut best_end: usize = 0;
    let mut best_width: usize = str_display_width(empty);
    proof {
        assert(empty@ =~= s@.take(0));
        assert(empty@.len() == 0);
    }
    let mut i: usize = 0;
    while i < n
        invariant
            i <= n,
            n == s@.len(),
            best_end <= i,
            best_width == display_width(s@.take(best_end as int)),
            best_width <= max_width,
            forall|j: int|
                best_end < j <= i ==> display_width(#[trigger] s@.take(j)) > max_width,
        decreases n - i,
    {
        let end = i + 1;
        let prefix = s.substring_char(0, end);
        let width = str_display_width(prefix);
        proof {
            assert(prefix@ =~= s@.take(end as int));
        }
        if width <= max_width {
            best_end = end;
            best_width = width;
        }
        i = end;
    }
    let result = s.substring_char(0, best_end);
    proof {
        assert(result@ =~= s@.take(best_end as int));
        assert(result@.is_prefix_of(s@));
        if display_width(s@) <= max_width {
            assert(s@.take(n as int) =~= s@);
            if best_end < n {
                assert(display_width(s@.take(n as int)) > max_width);
            }
            assert(best_end == n);
            assert(result@ =~= s@);
        }
    }
    (result, best_width)
}

/// The slice of a tag that is drawn, and its width: a tag whose display
/// width fits the cutoff is kept whole; a wider one is cut down to the
/// longest prefix whose display width fits the cutoff.
pub fn truncated_tag<'a>(tag: &'a str, cutoff: usize) -> (r: (&'a str, usize))
    ensures
        r.0@.is_prefix_of(tag@),
        r.1 == display_width(r.0@),
        display_width(tag@) <= cutoff ==> r.0@ == tag@,
        display_width(tag@) > cutoff ==> r.1 <= cutoff && (forall|j: int|
            r.0@.len() < j <= tag@.len() ==> display_width(#[trigger] tag@.take(j)) > cutoff),
{
    let width = str_display_width(tag);
    if cutoff < width {
        truncate_to_display_width(tag, cutoff)
    } else {
        proof {
            assert(tag@.is_prefix_of(tag@));
        }
        (tag, width)
    }
}

/// A moment in local time, reduced to what the time section reads: seconds
/// since the Unix epoch, the month (starting from zero), and the year.
#[derive(Clone, Copy, Debug)]
pub struct TimeParts {
    pub secs: i64,
    pub month0: u32,
    pub year: i32,
}

/// Whether a value is a moment chrono can represent: its year is within
/// chrono's bounded range, so its timestamp is well within these bounds,
/// and its month index is below twelve.
pub open spec fn time_parts_wf(t: TimeParts) -> bool {
    &&& -0x4_0000_0000_0000 < t.secs < 0x4_0000_0000_0000
    &&& t.month0 < 12
}

/// Relies on chrono's `Local::now`, `Datelike::month0` and `Datelike::year`:
/// chrono represents years within about plus or minus 262 thousand, so the
/// timestamp in seconds is bounded far below the stated limit, and the
/// month index is documented to range from 0 to 11. Caveat: `now` itself
/// panics if the system clock reads before 1970 or outside chrono's range —
/// a property of the environment, not of any input.
#[verifier::external_body]
fn local_now_parts() -> (r: TimeParts)
    ensures
        time_parts_wf(r),
{
    let now = chrono::Local::now();
    TimeParts {
        secs: now.timestamp(),
        month0: chrono::Datelike::month0(&now),
        year: chrono::Datelike::year(&now),
    }
}

/// What the time section of a message row shows.
#[derive(PartialEq, Eq, Structural, Debug, Clone, Copy)]
pub enum TimeLabel {
    /// The message is from the future: drawn as "now".
    Now,
    /// Less than a day old: drawn as hour and minute.
    HourMinute,
    /// Less than about a month old: this many days.
    Days(i64),
    /// Less than about a year old: this many months.
    Months(u32),
    /// Older: this many years.
    Years(i64),
}

/// The label decision for a message sent at `sent`, seen at `now`.
pub open spec fn time_label_spec(now: TimeParts, sent: TimeParts) -> TimeLabel {
    let d = now.secs - sent.secs;
    if d < 0 {
        TimeLabel::Now
    } else if d < 86400 {
        TimeLabel::HourMinute
    } else if d < 32 * 86400 {
        TimeLabel::Days((d / 86400) as i64)
    } else if d < 366 * 86400 {
        TimeLabel::Months((((now.month0 + 12 - sent.month0) % 12) + 1) as u32)
    } else {
        TimeLabel::Years((now.year - sent.year) as i64)
    }
}

/// The label for a message sent at `sent`, as seen right now. The sent
/// moment is checked rather than trusted: one outside the range chrono can
/// represent gets no label. Whatever moment the clock yields, the label is
/// the one `time_label_spec` decides for it.
pub fn time_label_at_now(sent: TimeParts) -> (r: Option<TimeLabel>)
    ensures
        r is Some <==> time_parts_wf(sent),
        r matches Some(label) ==> exists|now: TimeParts|
            time_parts_wf(now) && label == #[trigger] time_label_spec(now, sent),
{
    if !(sent.month0 < 12 && -0x4_0000_0000_0000 < sent.secs && sent.secs < 0x4_0000_0000_0000) {
        return None;
    }
    let now = local_now_parts();
    let label = time_label(now, sent);
    proof {
        assert(time_parts_wf(now) && label == time_label_spec(now, sent));
    }
    Some(label)
}

/// Decide how the time section of a message row is drawn, from the moment
/// the message was sent and the moment it is seen.
pub fn time_label(now: TimeParts, sent: TimeParts) -> (r: TimeLabel)
    requires
        time_parts_wf(now),
        time_parts_wf(sent),
    ensures
        r == time_label_spec(now, sent),
{
    let d: i64 = now.secs - sent.secs;
    if d < 0 {
        TimeLabel::Now
    } else if d < 86400 {
        TimeLabel::HourMinute
    } else if d < 32 * 86400 {
        TimeLabel::Days(d / 86400)
    } else if d < 366 * 86400 {
        TimeLabel::Months(((now.month0 + 12 - sent.month0) % 12) + 1)
    } else {
        TimeLabel::Years((now.year as i64) - (sent.year as i64))
    }
}

} // verus!
