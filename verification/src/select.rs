//! The tone selector: draws a small set of distinct frequencies from the
//! scale, uniformly at random without replacement.

use crate::scale::{scale_freqs, scale_seq, SCALE_LEN};
use vstd::prelude::*;

verus! {

/// How many notes a run's chord holds.
pub const CHORD_SIZE: usize = 3;

/// Why a selection was refused.
#[derive(Clone, Copy, Debug, PartialEq, Eq, Structural)]
pub enum SelectError {
    /// More frequencies were asked for than the scale holds.
    InvalidSelectionSize,
}

/// A chord: distinct frequencies drawn from the scale, in milli-hertz.
#[derive(Debug)]
pub struct ChordSelection {
    /// The chosen frequencies; order carries no meaning.
    pub freqs: Vec<u64>,
}

/// No element of the sequence occurs twice.
pub open spec fn distinct<A>(s: Seq<A>) -> bool {
    forall|i: int, j: int| 0 <= i < j < s.len() ==> s[i] != s[j]
}

impl ChordSelection {
    /// Well-formed for a chord of `count` notes: that many frequencies, all
    /// pairwise distinct, all drawn from the scale.
    pub open spec fn wf(self, count: int) -> bool {
        &&& self.freqs@.len() == count
        &&& distinct(self.freqs@)
        &&& forall|i: int| 0 <= i < self.freqs@.len() ==> scale_seq().contains(#[trigger] self.freqs@[i])
    }
}

/// The pool of all positions below `n`, in order.
pub open spec fn identity_pool(n: int) -> Seq<usize> {
    Seq::new(n as nat, |i: int| i as usize)
}

/// What drawing without replacement returns: the first pick indexes the
/// pool, and the remaining picks index the pool with that element removed.
pub open spec fn pool_pick(pool: Seq<usize>, picks: Seq<usize>) -> Seq<usize>
    decreases picks.len(),
{
    if picks.len() == 0 {
        Seq::empty()
    } else {
        seq![pool[picks[0] as int]] + pool_pick(pool.remove(picks[0] as int), picks.skip(1))
    }
}

/// Relies on `rand::Rng::gen_range` on the thread-local generator of
/// `rand::thread_rng`: for a non-empty half-open range starting at zero it
/// returns a value below the upper bound.  Nothing more is assumed of the
/// draw.
#[verifier::external_body]
fn rand_below(n: usize) -> (r: usize)
    requires
        n >= 1,
    ensures
        r < n,
{
    rand::Rng::gen_range(&mut rand::thread_rng(), 0..n)
}

/// Picks `picks.len()` distinct positions below `n` without replacement:
/// pick `k` indexes into the pool of the `n - k` positions still unchosen.
pub fn choose_distinct(n: usize, picks: &Vec<usize>) -> (r: Vec<usize>)
    requires
        picks@.len() <= n,
        forall|k: int| 0 <= k < picks@.len() ==> #[trigger] picks@[k] < n - k,
    ensures
        r@ == pool_pick(identity_pool(n as int), picks@),
        r@.len() == picks@.len(),
        distinct(r@),
        forall|i: int| 0 <= i < r@.len() ==> #[trigger] r@[i] < n,
{
    let mut pool: Vec<usize> = Vec::new();
    let mut i: usize = 0;
    while i < n
        invariant
            i <= n,
            pool@.len() == i,
            forall|p: int| 0 <= p < pool@.len() ==> #[trigger] pool@[p] == p,
        decreases n - i,
    {
        pool.push(i);
        i = i + 1;
    }
    proof {
        assert(distinct(pool@));
        assert(pool@ =~= identity_pool(n as int));
        assert(picks@.skip(0) =~= picks@);
        assert(Seq::<usize>::empty() + pool_pick(pool@, picks@) =~= pool_pick(pool@, picks@));
    }
    let mut chosen: Vec<usize> = Vec::new();
    let mut k: usize = 0;
    while k < picks.len()
        invariant
            k <= picks@.len(),
            picks@.len() <= n,
            forall|t: int| 0 <= t < picks@.len() ==> #[trigger] picks@[t] < n - t,
            pool@.len() == n - k,
            chosen@.len() == k,
            distinct(pool@),
            distinct(chosen@),
            forall|p: int| 0 <= p < pool@.len() ==> #[trigger] pool@[p] < n,
            forall|c: int| 0 <= c < chosen@.len() ==> #[trigger] chosen@[c] < n,
            forall|c: int, p: int|
                0 <= c < chosen@.len() && 0 <= p < pool@.len() ==> chosen@[c] != pool@[p],
            chosen@ + pool_pick(pool@, picks@.skip(k as int)) == pool_pick(
                identity_pool(n as int),
                picks@,
            ),
        decreases picks@.len() - k,
    {
        let idx: usize = picks[k];
        let v: usize = pool[idx];
        let ghost old_pool = pool@;
        let ghost old_chosen = chosen@;
        chosen.push(v);
        pool.remove(idx);
        proof {
            assert(pool@ =~= old_pool.subrange(0, idx as int) + old_pool.subrange(
                idx as int + 1, old_pool.len() as int));
            let rest = picks@.skip(k as int);
            assert(rest[0] == picks@[k as int]);
            assert(rest.skip(1) =~= picks@.skip(k as int + 1));
            assert(pool@ =~= old_pool.remove(idx as int));
            assert(pool_pick(old_pool, rest) == seq![v] + pool_pick(pool@, picks@.skip(
                k as int + 1)));
            assert(chosen@ + pool_pick(pool@, picks@.skip(k as int + 1)) =~= old_chosen
                + pool_pick(old_pool, rest));
            assert forall|p: int| 0 <= p < pool@.len() implies #[trigger] pool@[p] < n by {
                if p < idx {
                    assert(pool@[p] == old_pool[p]);
                } else {
                    assert(pool@[p] == old_pool[p + 1]);
                }
            }
            assert forall|p: int, q: int| 0 <= p < q < pool@.len() implies pool@[p] != pool@[q] by {
                let p0: int = if p < idx { p } else { p + 1 };
                let q0: int = if q < idx { q } else { q + 1 };
                assert(pool@[p] == old_pool[p0]);
                assert(pool@[q] == old_pool[q0]);
            }
            assert forall|c: int, p: int|
                0 <= c < chosen@.len() && 0 <= p < pool@.len() implies chosen@[c] != pool@[p] by {
                let p0: int = if p < idx { p } else { p + 1 };
                assert(pool@[p] == old_pool[p0]);
                if c < old_chosen.len() {
                    assert(chosen@[c] == old_chosen[c]);
                } else {
                    assert(chosen@[c] == old_pool[idx as int]);
                    assert(p0 != idx);
                }
            }
            assert forall|c: int, d: int|
                0 <= c < d < chosen@.len() implies chosen@[c] != chosen@[d] by {
                if d < old_chosen.len() {
                    assert(chosen@[c] == old_chosen[c]);
                    assert(chosen@[d] == old_chosen[d]);
                } else {
                    assert(chosen@[d] == old_pool[idx as int]);
                    assert(chosen@[c] == old_chosen[c]);
                }
            }
        }
        k = k + 1;
    }
    proof {
        assert(picks@.skip(picks@.len() as int) =~= Seq::<usize>::empty());
        assert(chosen@ + pool_pick(pool@, Seq::<usize>::empty()) =~= chosen@);
    }
    chosen
}

/// Builds a chord from explicit draw positions: pick `k` must index into the
/// `SCALE_LEN - k` notes still unchosen.  This is the deterministic core of
/// `select_chord`; a test substitutes the random source by calling it
/// directly.
pub fn chord_from_picks(count: usize, picks: &Vec<usize>) -> (r: Result<
    ChordSelection,
    SelectError,
>)
    requires
        count <= SCALE_LEN ==> picks@.len() == count,
        forall|k: int| 0 <= k < picks@.len() ==> #[trigger] picks@[k] < SCALE_LEN - k,
    ensures
        match r {
            Ok(chord) => count <= SCALE_LEN && chord.wf(count as int) && chord.freqs@
                == pool_pick(identity_pool(SCALE_LEN as int), picks@).map_values(
                |i: usize| scale_seq()[i as int],
            ),
            Err(e) => count > SCALE_LEN && e == SelectError::InvalidSelectionSize,
        },
{
    if count > SCALE_LEN {
        return Err(SelectError::InvalidSelectionSize);
    }
    let indices: Vec<usize> = choose_distinct(SCALE_LEN, picks);
    let scale: Vec<u64> = scale_freqs();
    let mut freqs: Vec<u64> = Vec::new();
    let mut i: usize = 0;
    proof {
        crate::scale::lemma_scale_wf();
    }
    while i < indices.len()
        invariant
            i <= indices@.len(),
            indices@.len() == count,
            distinct(indices@),
            scale@ == scale_seq(),
            forall|t: int| 0 <= t < indices@.len() ==> #[trigger] indices@[t] < SCALE_LEN,
            freqs@.len() == i,
            forall|t: int| 0 <= t < i ==> #[trigger] freqs@[t] == scale_seq()[indices@[t] as int],
            forall|a: int, b: int|
                0 <= a < b < scale_seq().len() ==> scale_seq()[a] != scale_seq()[b],
        decreases indices@.len() - i,
    {
        let idx: usize = indices[i];
        freqs.push(scale[idx]);
        i = i + 1;
    }
    proof {
        assert forall|a: int, b: int| 0 <= a < b < freqs@.len() implies freqs@[a] != freqs@[b] by {
            assert(freqs@[a] == scale_seq()[indices@[a] as int]);
            assert(freqs@[b] == scale_seq()[indices@[b] as int]);
            assert(indices@[a] != indices@[b]);
        }
        assert forall|t: int| 0 <= t < freqs@.len() implies scale_seq().contains(
            #[trigger] freqs@[t]) by {
            assert(scale_seq()[indices@[t] as int] == freqs@[t]);
        }
        assert(freqs@ =~= pool_pick(identity_pool(SCALE_LEN as int), picks@).map_values(
            |i: usize| scale_seq()[i as int]));
    }
    Ok(ChordSelection { freqs })
}

/// Draws `count` distinct frequencies from the scale, uniformly at random
/// without replacement; refuses a `count` beyond the scale's length.
pub fn select_chord(count: usize) -> (r: Result<ChordSelection, SelectError>)
    ensures
        match r {
            Ok(chord) => count <= SCALE_LEN && chord.wf(count as int),
            Err(e) => count > SCALE_LEN && e == SelectError::InvalidSelectionSize,
        },
{
    if count > SCALE_LEN {
        return Err(SelectError::InvalidSelectionSize);
    }
    let mut picks: Vec<usize> = Vec::new();
    let mut k: usize = 0;
    while k < count
        invariant
            k <= count,
            count <= SCALE_LEN,
            picks@.len() == k,
            forall|t: int| 0 <= t < k ==> #[trigger] picks@[t] < SCALE_LEN - t,
        decreases count - k,
    {
        let draw: usize = rand_below(SCALE_LEN - k);
        picks.push(draw);
        k = k + 1;
    }
    chord_from_picks(count, &picks)
}

} // verus!
