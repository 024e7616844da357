//! The fixed twelve-tone equal-tempered scale, one octave, in milli-hertz.

use vstd::prelude::*;

verus! {

/// Number of notes in the scale.
pub const SCALE_LEN: usize = 12;

/// Largest frequency, in milli-hertz, that the synthesizer accepts.
pub const MAX_FREQ_MILLIHZ: u64 = 1000000000;

/// The scale as a sequence: twelve strictly increasing positive frequencies,
/// in milli-hertz, one octave of equal-tempered tuning.
pub open spec fn scale_seq() -> Seq<u64> {
    seq![
        261626u64,
        277183u64,
        293665u64,
        311127u64,
        329628u64,
        349228u64,
        369994u64,
        391995u64,
        415305u64,
        440000u64,
        466164u64,
        493883u64,
    ]
}

/// The scale invariant: exactly twelve strictly increasing values, all
/// positive and within the synthesizer's frequency bound.
pub proof fn lemma_scale_wf()
    ensures
        scale_seq().len() == SCALE_LEN,
        forall|i: int, j: int|
            0 <= i < j < scale_seq().len() ==> scale_seq()[i] < scale_seq()[j],
        forall|i: int|
            0 <= i < scale_seq().len() ==> 0 < #[trigger] scale_seq()[i] <= MAX_FREQ_MILLIHZ,
{
    assert forall|i: int, j: int|
        0 <= i < j < scale_seq().len() implies scale_seq()[i] < scale_seq()[j] by {
        assert(scale_seq()[i] < scale_seq()[j]);
    }
}

/// The scale as a vector, for callers that index it at run time.
pub fn scale_freqs() -> (v: Vec<u64>)
    ensures
        v@ == scale_seq(),
{
    let mut v: Vec<u64> = Vec::new();
    v.push(261626);
    v.push(277183);
    v.push(293665);
    v.push(311127);
    v.push(329628);
    v.push(349228);
    v.push(369994);
    v.push(391995);
    v.push(415305);
    v.push(440000);
    v.push(466164);
    v.push(493883);
    proof {
        assert(v@ =~= scale_seq());
    }
    v
}

} // verus!
