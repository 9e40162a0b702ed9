//! The frequency table: ascending order, sorting at construction, and the
//! acceptance band used by drift verification.

use vstd::multiset::Multiset;
use vstd::prelude::*;

verus! {

broadcast use vstd::seq_lib::group_to_multiset_ensures;

/// Ascending order, duplicates allowed.
pub open spec fn sorted_ascending(s: Seq<isize>) -> bool {
    forall|i: int, j: int| 0 <= i <= j < s.len() ==> #[trigger] s[i] <= #[trigger] s[j]
}

/// Sorts a frequency table ascending; the entries themselves are kept.
#[verifier::loop_isolation(false)]
pub fn sort_ascending(v: Vec<isize>) -> (r: Vec<isize>)
    ensures
        sorted_ascending(r@),
        r@.to_multiset() == v@.to_multiset(),
        r@.len() == v@.len(),
{
    let mut src = v;
    let mut out: Vec<isize> = Vec::new();
    while src.len() > 0
        invariant
            out@.to_multiset().add(src@.to_multiset()) =~= v@.to_multiset(),
            out@.len() + src@.len() == v@.len(),
            sorted_ascending(out@),
            forall|a: int, b: int|
                0 <= a < out@.len() && 0 <= b < src@.len() ==> #[trigger] out@[a]
                    <= #[trigger] src@[b],
        decreases src.len(),
    {
        let mut m: usize = 0;
        let mut k: usize = 1;
        while k < src.len()
            invariant
                0 <= m < k <= src@.len(),
                forall|b: int| 0 <= b < k ==> src@[m as int] <= #[trigger] src@[b],
            decreases src.len() - k,
        {
            if src[k] < src[m] {
                m = k;
            }
            k += 1;
        }
        let ghost old_src = src@;
        let ghost old_out = out@;
        let x = src.remove(m);
        out.push(x);
        proof {
            assert(src@ =~= old_src.remove(m as int));
            assert(old_src.to_multiset().contains(x));
            assert(out@.to_multiset().add(src@.to_multiset()) =~= old_out.to_multiset().add(
                old_src.to_multiset(),
            ));
            assert forall|b: int| 0 <= b < src@.len() implies x <= #[trigger] src@[b] by {
                if b < m {
                    assert(src@[b] == old_src[b]);
                } else {
                    assert(src@[b] == old_src[b + 1]);
                }
            }
        }
    }
    proof {
        assert(src@.to_multiset() =~= Multiset::empty());
        assert(out@.to_multiset() =~= v@.to_multiset());
    }
    out
}

/// The lower edge of the acceptance band: scanning the table from its upper
/// end, the first entry at or below `t`; `t` itself when none qualifies.
/// On an ascending table this is the largest entry at or below `t`.
pub open spec fn band_lo(s: Seq<isize>, t: isize) -> isize
    decreases s.len(),
{
    if s.len() == 0 {
        t
    } else if s.last() <= t {
        s.last()
    } else {
        band_lo(s.drop_last(), t)
    }
}

/// The upper edge of the acceptance band: scanning the table from its lower
/// end, the first entry at or above `t`; `t` itself when none qualifies.
/// On an ascending table this is the smallest entry at or above `t`.
pub open spec fn band_hi(s: Seq<isize>, t: isize) -> isize
    decreases s.len(),
{
    if s.len() == 0 {
        t
    } else if s.first() >= t {
        s.first()
    } else {
        band_hi(s.drop_first(), t)
    }
}

/// The acceptance band always contains the target it was computed for,
/// whatever the table holds.
pub proof fn lemma_band_contains_target(s: Seq<isize>, t: isize)
    ensures
        band_lo(s, t) <= t,
        t <= band_hi(s, t),
        band_lo(s, t) <= band_hi(s, t),
    decreases s.len(),
{
    if s.len() > 0 {
        lemma_band_contains_target(s.drop_last(), t);
        lemma_band_contains_target(s.drop_first(), t);
    }
}

/// On an ascending table that reaches down to the target, the band's lower
/// edge is the largest entry at or below the target, and an entry of the table.
pub proof fn lemma_band_lo_is_largest_at_most(s: Seq<isize>, t: isize)
    requires
        sorted_ascending(s),
        s.len() > 0,
        s.first() <= t,
    ensures
        s.contains(band_lo(s, t)),
        band_lo(s, t) <= t,
        forall|i: int| 0 <= i < s.len() && s[i] <= t ==> s[i] <= band_lo(s, t),
    decreases s.len(),
{
    if s.last() <= t {
        assert(s.contains(s.last()));
    } else {
        assert(s.drop_last().first() == s.first());
        lemma_band_lo_is_largest_at_most(s.drop_last(), t);
        let w = choose|j: int| 0 <= j < s.drop_last().len() && s.drop_last()[j] == band_lo(
            s.drop_last(),
            t,
        );
        assert(s[w] == band_lo(s, t));
        assert(s.contains(band_lo(s, t)));
        assert forall|i: int| 0 <= i < s.len() && s[i] <= t implies s[i] <= band_lo(s, t) by {
            assert(i < s.drop_last().len());
            assert(s.drop_last()[i] == s[i]);
        }
    }
}

/// On an ascending table that reaches up to the target, the band's upper
/// edge is the smallest entry at or above the target, and an entry of the table.
pub proof fn lemma_band_hi_is_smallest_at_least(s: Seq<isize>, t: isize)
    requires
        sorted_ascending(s),
        s.len() > 0,
        t <= s.last(),
    ensures
        s.contains(band_hi(s, t)),
        t <= band_hi(s, t),
        forall|i: int| 0 <= i < s.len() && s[i] >= t ==> s[i] >= band_hi(s, t),
    decreases s.len(),
{
    if s.first() >= t {
        assert(s.contains(s.first()));
    } else {
        assert(s.drop_first().last() == s.last());
        lemma_band_hi_is_smallest_at_least(s.drop_first(), t);
        let w = choose|j: int| 0 <= j < s.drop_first().len() && s.drop_first()[j] == band_hi(
            s.drop_first(),
            t,
        );
        assert(s[w + 1] == band_hi(s, t));
        assert(s.contains(band_hi(s, t)));
        assert forall|i: int| 0 <= i < s.len() && s[i] >= t implies s[i] >= band_hi(s, t) by {
            if i == 0 {
                assert(s[0] < t);
            } else {
                assert(s.drop_first()[i - 1] == s[i]);
            }
        }
    }
}

/// Computes [`band_lo`] of the table.
#[verifier::loop_isolation(false)]
pub fn band_floor(freqs: &Vec<isize>, target: isize) -> (r: isize)
    ensures
        r == band_lo(freqs@, target),
{
    let mut k = freqs.len();
    proof {
        assert(freqs@.take(k as int) =~= freqs@);
    }
    while k > 0
        invariant
            0 <= k <= freqs@.len(),
            band_lo(freqs@, target) == band_lo(freqs@.take(k as int), target),
        decreases k,
    {
        if freqs[k - 1] <= target {
            proof {
                assert(freqs@.take(k as int).last() == freqs@[k - 1]);
            }
            return freqs[k - 1];
        }
        proof {
            assert(freqs@.take(k as int).drop_last() =~= freqs@.take(k - 1));
        }
        k -= 1;
    }
    target
}

/// Computes [`band_hi`] of the table.
#[verifier::loop_isolation(false)]
pub fn band_ceiling(freqs: &Vec<isize>, target: isize) -> (r: isize)
    ensures
        r == band_hi(freqs@, target),
{
    let mut k: usize = 0;
    proof {
        assert(freqs@.skip(0) =~= freqs@);
    }
    while k < freqs.len()
        invariant
            0 <= k <= freqs@.len(),
            band_hi(freqs@, target) == band_hi(freqs@.skip(k as int), target),
        decreases freqs@.len() - k,
    {
        if freqs[k] >= target {
            proof {
                assert(freqs@.skip(k as int).first() == freqs@[k as int]);
            }
            return freqs[k];
        }
        proof {
            assert(freqs@.skip(k as int).drop_first() =~= freqs@.skip(k + 1));
        }
        k += 1;
    }
    proof {
        assert(freqs@.skip(k as int).len() == 0);
    }
    target
}

} // verus!
