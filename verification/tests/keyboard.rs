use futures::Stream;
use note_player::trigger::{alert_sheet, is_alert};
use note_player::{Beats, Keyboard, KeyboardError, Note, Score, Sheet};

fn single(pitch: u8) -> Sheet {
    Sheet {
        scores: vec![Score {
            bpm: 60,
            notes: vec![Note::Audible(pitch, Beats::from_thousandths(1000))],
        }],
    }
}

#[test]
fn a_busy_device_gives_no_handle() {
    assert_eq!(Keyboard::new(false).err(), Some(KeyboardError::DeviceBusy));
}

#[test]
fn an_open_device_gives_a_handle() {
    assert!(Keyboard::new(true).is_ok());
}

#[test]
fn play_hands_the_sheet_to_the_queue() {
    let (keyboard, inbox) = Keyboard::new(true).ok().unwrap();
    assert_eq!(keyboard.play(single(42)), Ok(()));
    drop(keyboard);
    let got: Vec<Sheet> = inbox.wait().map(|entry| entry.unwrap()).collect();
    assert_eq!(got, vec![single(42)]);
}

#[test]
fn sheets_arrive_in_the_order_in_which_they_were_played() {
    let (keyboard, inbox) = Keyboard::new(true).ok().unwrap();
    for pitch in 0..100 {
        assert_eq!(keyboard.play(single(pitch)), Ok(()));
    }
    drop(keyboard);
    let got: Vec<Sheet> = inbox.wait().map(|entry| entry.unwrap()).collect();
    let sent: Vec<Sheet> = (0..100).map(single).collect();
    assert_eq!(got, sent);
}

#[test]
fn play_does_not_wait_for_the_worker() {
    let (keyboard, inbox) = Keyboard::new(true).ok().unwrap();
    // nobody reads the queue: every call still comes back
    for _ in 0..1000 {
        assert_eq!(keyboard.play(alert_sheet()), Ok(()));
    }
    drop(inbox);
}

#[test]
fn play_fails_once_the_worker_is_gone() {
    let (keyboard, inbox) = Keyboard::new(true).ok().unwrap();
    assert_eq!(keyboard.play(single(1)), Ok(()));
    drop(inbox);
    assert_eq!(keyboard.play(single(2)), Err(KeyboardError::DeviceUnavailable));
    assert_eq!(keyboard.play(single(3)), Err(KeyboardError::DeviceUnavailable));
}

#[test]
fn play_fails_once_the_queue_is_closed() {
    let (keyboard, mut inbox) = Keyboard::new(true).ok().unwrap();
    inbox.close();
    assert_eq!(keyboard.play(single(2)), Err(KeyboardError::DeviceUnavailable));
}

#[test]
fn an_ill_formed_sheet_is_still_taken_by_play() {
    let (keyboard, inbox) = Keyboard::new(true).ok().unwrap();
    let broken = Sheet { scores: vec![Score { bpm: 0, notes: vec![] }] };
    assert_eq!(keyboard.play(broken.clone()), Ok(()));
    drop(keyboard);
    let got: Vec<Sheet> = inbox.wait().map(|entry| entry.unwrap()).collect();
    assert_eq!(got, vec![broken]);
}

#[test]
fn what_play_answers_for_what_the_queue_said() {
    assert_eq!(Keyboard::submitted(Ok(())), Ok(()));
    assert_eq!(Keyboard::submitted(Err(single(1))), Err(KeyboardError::DeviceUnavailable));
}

#[test]
fn the_text_of_each_error() {
    assert_eq!(KeyboardError::DeviceNotFound.message(), "Port not found");
    assert_eq!(KeyboardError::DeviceBusy.message(), "Could not bind to MIDI output");
    assert_eq!(KeyboardError::DeviceUnavailable.message(), "MIDI output is no longer available");
    assert_eq!(KeyboardError::InvalidTempo.message(), "Tempo must be above zero");
}

#[test]
fn the_alert_is_set_off_by_its_word_alone() {
    assert!(is_alert("!alert"));
    assert!(!is_alert("!alert "));
    assert!(!is_alert(" !alert"));
    assert!(!is_alert("!Alert"));
    assert!(!is_alert("alert"));
    assert!(!is_alert(""));
    assert!(!is_alert("!alert!alert"));
}

#[test]
fn the_alert_sheet() {
    let long = Beats::from_thousandths(1500);
    let short = Beats::from_thousandths(1000);
    assert_eq!(
        alert_sheet(),
        Sheet {
            scores: vec![Score {
                bpm: 172,
                notes: vec![
                    Note::Audible(67, long),
                    Note::Audible(67, long),
                    Note::Audible(70, short),
                    Note::Audible(72, short),
                    Note::Audible(67, long),
                    Note::Audible(67, long),
                ],
            }],
        }
    );
    assert!(alert_sheet().is_well_formed());
}
