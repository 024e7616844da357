//! Behaviour of the tone selector, with and without a substituted random
//! source.

use tonegen::select::{chord_from_picks, select_chord, SelectError};
use tonegen::scale::scale_freqs;

#[test]
fn scale_is_twelve_increasing_notes() {
    let scale = scale_freqs();
    assert_eq!(scale.len(), 12);
    assert_eq!(scale[0], 261626);
    assert_eq!(scale[4], 329628);
    assert_eq!(scale[7], 391995);
    assert_eq!(scale[11], 493883);
    for i in 1..scale.len() {
        assert!(scale[i - 1] < scale[i]);
    }
}

#[test]
fn stubbed_picks_give_a_fixed_chord() {
    // Draw positions 0, 3 and 5 of the shrinking pool: notes 0, 4 and 7.
    let picks = vec![0usize, 3, 5];
    let chord = chord_from_picks(3, &picks).unwrap();
    assert_eq!(chord.freqs, vec![261626u64, 329628, 391995]);
    // Always drawing position 0 walks the scale from the bottom.
    let first_three = chord_from_picks(3, &vec![0usize, 0, 0]).unwrap();
    assert_eq!(first_three.freqs, vec![261626u64, 277183, 293665]);
    // Drawing the last position each time walks it from the top.
    let last_three = chord_from_picks(3, &vec![11usize, 10, 9]).unwrap();
    assert_eq!(last_three.freqs, vec![493883u64, 466164, 440000]);
}

#[test]
fn random_selection_is_three_distinct_scale_notes() {
    let scale = scale_freqs();
    for _ in 0..50 {
        let chord = select_chord(3).unwrap();
        assert_eq!(chord.freqs.len(), 3);
        for f in chord.freqs.iter() {
            assert!(scale.contains(f));
        }
        assert!(chord.freqs[0] != chord.freqs[1]);
        assert!(chord.freqs[0] != chord.freqs[2]);
        assert!(chord.freqs[1] != chord.freqs[2]);
    }
}

#[test]
fn oversized_selection_is_refused() {
    let no_picks: Vec<usize> = vec![];
    assert_eq!(
        chord_from_picks(13, &no_picks).unwrap_err(),
        SelectError::InvalidSelectionSize
    );
    assert_eq!(select_chord(13).unwrap_err(), SelectError::InvalidSelectionSize);
}

#[test]
fn whole_scale_can_be_selected() {
    let picks = vec![0usize; 12];
    let chord = chord_from_picks(12, &picks).unwrap();
    assert_eq!(chord.freqs, scale_freqs());
}
