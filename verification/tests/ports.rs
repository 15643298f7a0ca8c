use note_player::{Keyboard, KeyboardError, Ports};

fn names(list: &[Option<&str>]) -> Vec<Option<String>> {
    list.iter().map(|n| n.map(|s| s.to_string())).collect()
}

#[test]
fn no_devices_no_ports() {
    let ports = Keyboard::get_ports(&Vec::new());
    assert!(ports.names().is_empty());
    assert_eq!(ports.get("Synth"), None);
    assert_eq!(ports.find("Synth"), Err(KeyboardError::DeviceNotFound));
}

#[test]
fn each_device_by_its_number() {
    let ports = Keyboard::get_ports(&names(&[Some("Midi Through"), Some("Synth"), Some("Piano")]));
    assert_eq!(ports.get("Midi Through"), Some(0));
    assert_eq!(ports.get("Synth"), Some(1));
    assert_eq!(ports.get("Piano"), Some(2));
    assert_eq!(ports.get("Organ"), None);
    assert_eq!(ports.names(), vec!["Midi Through", "Synth", "Piano"]);
}

#[test]
fn a_device_without_a_readable_name_is_left_out() {
    let ports = Keyboard::get_ports(&names(&[None, Some("Synth"), None, Some("Piano"), None]));
    assert_eq!(ports.get("Synth"), Some(1));
    assert_eq!(ports.get("Piano"), Some(3));
    assert_eq!(ports.names().len(), 2);
    assert_eq!(ports.get(""), None);
}

#[test]
fn of_two_devices_of_one_name_the_later_is_kept() {
    let ports = Keyboard::get_ports(&names(&[
        Some("Synth"),
        Some("Piano"),
        Some("Synth"),
        None,
        Some("Synth"),
        Some("Organ"),
    ]));
    assert_eq!(ports.get("Synth"), Some(4));
    assert_eq!(ports.get("Piano"), Some(1));
    assert_eq!(ports.get("Organ"), Some(5));
    let mut listed = ports.names();
    listed.sort();
    assert_eq!(listed, vec!["Organ", "Piano", "Synth"]);
}

#[test]
fn names_are_told_apart_to_the_letter() {
    let ports = Ports::collect(&names(&[Some("Synth"), Some("synth"), Some("Synth "), Some("")]));
    assert_eq!(ports.get("Synth"), Some(0));
    assert_eq!(ports.get("synth"), Some(1));
    assert_eq!(ports.get("Synth "), Some(2));
    assert_eq!(ports.get(""), Some(3));
    assert_eq!(ports.get("Syn"), None);
}

#[test]
fn find_gives_the_number_or_says_not_found() {
    let ports = Keyboard::get_ports(&names(&[Some("Microsoft GS Wavetable Synth"), None]));
    assert_eq!(ports.find("Microsoft GS Wavetable Synth"), Ok(0));
    assert_eq!(ports.find("No keyboard"), Err(KeyboardError::DeviceNotFound));
}

#[test]
fn only_unreadable_names() {
    let ports = Keyboard::get_ports(&names(&[None, None]));
    assert!(ports.names().is_empty());
    assert_eq!(ports.find("anything"), Err(KeyboardError::DeviceNotFound));
}
