use wayfire_settings::cursor::LineCursor;
use wayfire_settings::display::{parse_coordinate, ApplyError, Output, Resolution, Transform};
use wayfire_settings::displays::{Displays, ListingError};

const LAPTOP: &str = "eDP-1 eDP-1\nPhysical size: 310x170 mm\nEnabled: yes\nModes:\n1920x1080 px, 60.000000 Hz, current\n1920x1080 px, 59.940000 Hz\nPosition: 0,0\nTransform: normal\nScale: 1.000000\n";

const TWO_OUTPUTS: &str = "eDP-1 \"Sharp Corporation 0x1449 (eDP-1)\"\n  Physical size: 310x170 mm\n  Enabled: yes\n  Modes:\n    1920x1080 px, 60.000000 Hz (preferred, current)\n    1680x1050 px, 59.883000 Hz\n  Position: 1920,0\n  Transform: normal\n  Scale: 1.250000\nHDMI-A-1 \"Dell Inc. DELL U2419H\"\n  Physical size: 530x300 mm\n  Enabled: yes\n  Modes:\n    1920x1080 px, 60.000000 Hz (preferred, current)\n    1280x720 px, 60.000000 Hz\n  Position: 0,0\n  Transform: 90\n  Scale: 1.000000\n";

const NO_MODES: &str = "HDMI-A-2 Unplugged Monitor\n  Physical size: 0x0 mm\n  Enabled: no\n  Modes:\n  Position: 0,0\n  Transform: normal\n  Scale: 1.000000\n";

fn strings(v: &[&str]) -> Vec<String> {
    v.iter().map(|s| s.to_string()).collect()
}

fn mode(resolution: &str, refresh: &str) -> Resolution {
    Resolution { resolution: resolution.to_string(), refresh: refresh.to_string() }
}

fn output_with(modes: Vec<Resolution>, now_mode: Option<Resolution>, scale: &str) -> Output {
    Output {
        name: "DP-1".to_string(),
        description: "Monitor".to_string(),
        physical_size: "600x340 mm".to_string(),
        enabled: true,
        modes,
        now_mode,
        position: (1920, 0),
        transform: Transform::Roate270,
        scale: scale.to_string(),
    }
}

#[test]
fn laptop_record_parses_to_expected_output() {
    let d = Displays::from_listing(LAPTOP).unwrap();
    let o = d.get("eDP-1").unwrap();
    assert_eq!(o.name, "eDP-1");
    assert_eq!(o.description, "eDP-1");
    assert_eq!(o.physical_size, " 310x170 mm");
    assert!(o.enabled);
    assert_eq!(o.modes.len(), 2);
    assert_eq!(o.modes[1].refresh, "59.940000");
    let m = o.now_mode.as_ref().unwrap();
    assert_eq!(m.resolution, "1920x1080");
    assert_eq!(m.refresh.parse::<f64>().unwrap(), 60.0);
    assert_eq!(o.position, (0, 0));
    assert_eq!(o.transform, Transform::Normal);
    assert_eq!(o.scale.parse::<f64>().unwrap(), 1.0);
}

#[test]
fn unedited_output_applies_as_read() {
    let d = Displays::from_listing(LAPTOP).unwrap();
    let args = d.get("eDP-1").unwrap().apply_args().unwrap();
    assert_eq!(
        args,
        strings(&[
            "--output", "eDP-1", "--on", "--mode", "1920x1080@60.000000", "--scale", "1.000000",
            "--transform", "normal", "--pos", "0,0",
        ])
    );
}

#[test]
fn listing_with_two_outputs_applies_each_as_read() {
    let d = Displays::from_listing(TWO_OUTPUTS).unwrap();
    assert_eq!(d.outputs().len(), 2);
    let first = d.get("eDP-1").unwrap();
    assert_eq!(first.description, "\"Sharp Corporation 0x1449 (eDP-1)\"");
    let all = d.apply_args().unwrap();
    assert_eq!(
        all[0],
        strings(&[
            "--output", "eDP-1", "--on", "--mode", "1920x1080@60.000000", "--scale", "1.250000",
            "--transform", "normal", "--pos", "1920,0",
        ])
    );
    assert_eq!(
        all[1],
        strings(&[
            "--output", "HDMI-A-1", "--on", "--mode", "1920x1080@60.000000", "--scale",
            "1.000000", "--transform", "90", "--pos", "0,0",
        ])
    );
}

#[test]
fn header_words_are_joined_by_single_spaces() {
    let text = "DP-3   Acme   Wide\tScreen  \n Physical size: 1x1 mm\n Enabled: yes\n Modes:\n Position: 5,6\n Transform: flipped\n Scale: 2\n";
    let d = Displays::from_listing(text).unwrap();
    let o = d.get("DP-3").unwrap();
    assert_eq!(o.description, "Acme Wide Screen");
    assert_eq!(o.position, (5, 6));
    assert_eq!(o.transform, Transform::Flipped);
    assert_eq!(o.scale, "2");
}

#[test]
fn record_without_modes_has_no_active_mode() {
    let d = Displays::from_listing(NO_MODES).unwrap();
    let o = d.get("HDMI-A-2").unwrap();
    assert!(!o.enabled);
    assert!(o.modes.is_empty());
    assert!(o.now_mode.is_none());
    assert_eq!(o.apply_args(), Err(ApplyError::NoActiveMode));
}

#[test]
fn mode_outside_supported_list_is_refused() {
    let o = output_with(vec![mode("1920x1080", "60")], Some(mode("3840x2160", "60")), "1");
    assert_eq!(o.apply_args(), Err(ApplyError::UnsupportedMode));
}

#[test]
fn scale_that_is_not_positive_is_refused() {
    let o = output_with(vec![mode("1920x1080", "60")], Some(mode("1920x1080", "60")), "0.000");
    assert_eq!(o.apply_args(), Err(ApplyError::InvalidScale));
}

#[test]
fn edited_output_applies_its_edits() {
    let o = output_with(
        vec![mode("1920x1080", "60"), mode("2560x1440", "144.000")],
        Some(mode("2560x1440", "144.000")),
        "1.5",
    );
    assert_eq!(
        o.apply_args().unwrap(),
        strings(&[
            "--output", "DP-1", "--on", "--mode", "2560x1440@144.000", "--scale", "1.5",
            "--transform", "270", "--pos", "1920,0",
        ])
    );
}

#[test]
fn lowest_name_is_current_after_first_listing() {
    let d = Displays::from_listing(TWO_OUTPUTS).unwrap();
    assert_eq!(d.now(), Some("HDMI-A-1".to_string()));
    let swapped = TWO_OUTPUTS.replace("HDMI-A-1", "DP-1").replace("eDP-1", "DP-2");
    let e = Displays::from_listing(&swapped).unwrap();
    assert_eq!(e.outputs()[0].name, "DP-2");
    assert_eq!(e.now(), Some("DP-1".to_string()));
}

#[test]
fn enabled_value_is_trimmed_of_all_white_space() {
    let text = LAPTOP.replace("Enabled: yes", "Enabled: \u{b}yes\u{a0}");
    let d = Displays::from_listing(&text).unwrap();
    assert!(d.get("eDP-1").unwrap().enabled);
    let no = LAPTOP.replace("Enabled: yes", "Enabled: Yes");
    assert!(!Displays::from_listing(&no).unwrap().get("eDP-1").unwrap().enabled);
}

#[test]
fn vanished_current_output_falls_back_to_lowest_name() {
    let mut d = Displays::from_listing(TWO_OUTPUTS).unwrap();
    let fresh = TWO_OUTPUTS.replace("HDMI-A-1", "DP-2").replace("eDP-1", "DP-1");
    assert_eq!(d.init(&fresh), Ok(()));
    assert_eq!(d.now(), Some("DP-1".to_string()));
    assert!(d.get("HDMI-A-1").is_none());
}

#[test]
fn current_output_is_kept_while_listed() {
    let mut d = Displays::from_listing(TWO_OUTPUTS).unwrap();
    assert!(d.set_now("eDP-1"));
    assert_eq!(d.init(TWO_OUTPUTS), Ok(()));
    assert_eq!(d.now(), Some("eDP-1".to_string()));
    assert!(!d.set_now("VGA-1"));
    assert_eq!(d.now(), Some("eDP-1".to_string()));
}

#[test]
fn empty_listing_leaves_no_current_output() {
    let mut d = Displays::from_listing(TWO_OUTPUTS).unwrap();
    assert_eq!(d.init(""), Ok(()));
    assert!(d.outputs().is_empty());
    assert_eq!(d.now(), None);
}

#[test]
fn malformed_listing_is_refused_and_changes_nothing() {
    let mut d = Displays::from_listing(LAPTOP).unwrap();
    let bad = LAPTOP.replace("normal", "sideways");
    assert_eq!(d.init(&bad).err(), Some(ListingError::MalformedRecord));
    assert_eq!(d.outputs().len(), 1);
    assert_eq!(d.now(), Some("eDP-1".to_string()));
    let cut = "eDP-1 eDP-1\nPhysical size: 310x170 mm\nEnabled: yes\n";
    assert_eq!(Displays::from_listing(cut).err(), Some(ListingError::MalformedRecord));
    let big = LAPTOP.replace("Position: 0,0", "Position: 70000,0");
    assert_eq!(Displays::from_listing(&big).err(), Some(ListingError::MalformedRecord));
}

#[test]
fn duplicate_names_are_refused() {
    let twice = format!("{}{}", LAPTOP, LAPTOP);
    assert_eq!(Displays::from_listing(&twice).err(), Some(ListingError::DuplicateName));
}

#[test]
fn edited_output_replaces_the_one_of_its_name() {
    let mut d = Displays::from_listing(LAPTOP).unwrap();
    let mut o = output_with(vec![mode("1920x1080", "60.000000")], Some(mode("1920x1080", "60.000000")), "2");
    o.name = "eDP-1".to_string();
    assert!(d.set_output(o));
    assert_eq!(d.get("eDP-1").unwrap().scale, "2");
    let other = output_with(vec![], None, "1");
    assert!(!d.set_output(other));
}

#[test]
fn transform_names_round_trip() {
    for t in [Transform::Normal, Transform::Roate90, Transform::Roate180, Transform::Roate270, Transform::Flipped] {
        assert_eq!(Transform::from_str(t.as_str()), Some(t));
    }
    assert_eq!(Transform::from_str("90"), Some(Transform::Roate90));
    assert_eq!(Transform::from_str("sideways"), None);
    assert_eq!(Transform::default(), Transform::Normal);
}

#[test]
fn cursor_hands_out_lines_without_line_ends() {
    let mut c = LineCursor::new("a\r\n\nb c\n");
    assert_eq!(c.next(), Some(vec!['a']));
    assert_eq!(c.next(), Some(vec![]));
    assert_eq!(c.next(), Some(vec!['b', ' ', 'c']));
    assert!(c.is_done());
    assert_eq!(c.next(), None);
}

#[test]
fn coordinate_fields_are_read_within_range() {
    assert_eq!(parse_coordinate(" 1920 "), Some(1920));
    assert_eq!(parse_coordinate("65535"), Some(65535));
    assert_eq!(parse_coordinate("65536"), None);
    assert_eq!(parse_coordinate("12a"), None);
    assert_eq!(parse_coordinate(""), None);
    assert_eq!(parse_coordinate("+42"), Some(42));
    assert_eq!(parse_coordinate("\u{a0}7\u{3000}"), Some(7));
    assert_eq!(parse_coordinate("+"), None);
    assert_eq!(parse_coordinate("-3"), None);
}
