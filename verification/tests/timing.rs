use note_player::timing::hold_millis;
use note_player::{Beats, KeyboardError};

fn beats(thousandths: u32) -> Beats {
    Beats::from_thousandths(thousandths)
}

#[test]
fn one_beat_at_sixty_is_a_second() {
    assert_eq!(hold_millis(60, beats(1000)), Ok(1000));
}

#[test]
fn one_beat_at_one_twenty_is_half_a_second() {
    assert_eq!(hold_millis(120, beats(1000)), Ok(500));
}

#[test]
fn a_beat_and_a_half_at_172() {
    // 60000 / 172 * 1.5 = 523.26
    assert_eq!(hold_millis(172, beats(1500)), Ok(523));
}

#[test]
fn one_beat_at_172_goes_up_to_349() {
    // 60000 / 172 = 348.84
    assert_eq!(hold_millis(172, beats(1000)), Ok(349));
}

#[test]
fn below_a_half_goes_down() {
    // 60000 / 7 * 0.001 = 8.571 -> 9; 60000 / 9 * 0.001 = 6.667 -> 7; 60000 / 11 * 0.001 = 5.45 -> 5
    assert_eq!(hold_millis(7, beats(1)), Ok(9));
    assert_eq!(hold_millis(9, beats(1)), Ok(7));
    assert_eq!(hold_millis(11, beats(1)), Ok(5));
}

#[test]
fn a_half_goes_up() {
    // 60000 / 8 * 0.001 = 7.5
    assert_eq!(hold_millis(8, beats(1)), Ok(8));
    // 60000 / 40 * 0.001 = 1.5, 60000 / 40 * 0.003 = 4.5
    assert_eq!(hold_millis(40, beats(1)), Ok(2));
    assert_eq!(hold_millis(40, beats(3)), Ok(5));
}

#[test]
fn no_beats_no_hold() {
    assert_eq!(hold_millis(1, beats(0)), Ok(0));
    assert_eq!(hold_millis(255, beats(0)), Ok(0));
}

#[test]
fn the_longest_hold() {
    assert_eq!(hold_millis(1, beats(u32::MAX)), Ok(60 * (u32::MAX as u64)));
}

#[test]
fn the_fastest_tempo() {
    // 60000 / 255 = 235.29
    assert_eq!(hold_millis(255, beats(1000)), Ok(235));
    // 60 * 4294967295 / 255 = 1010580540
    assert_eq!(hold_millis(255, beats(u32::MAX)), Ok(1_010_580_540));
}

#[test]
fn zero_tempo_is_refused() {
    assert_eq!(hold_millis(0, beats(1000)), Err(KeyboardError::InvalidTempo));
    assert_eq!(hold_millis(0, beats(0)), Err(KeyboardError::InvalidTempo));
}

#[test]
fn hold_is_the_nearest_millisecond() {
    for bpm in 1u8..=255 {
        for t in [0u32, 1, 2, 3, 250, 333, 500, 999, 1000, 1500, 4000, 123_456, u32::MAX] {
            let hold = hold_millis(bpm, beats(t)).unwrap() as i128;
            let unit = 1000 * bpm as i128;
            let exact = 60_000 * t as i128;
            assert!(2 * exact - unit < 2 * unit * hold, "bpm {} t {}", bpm, t);
            assert!(2 * unit * hold <= 2 * exact + unit, "bpm {} t {}", bpm, t);
        }
    }
}
