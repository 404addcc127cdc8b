use wayfire_settings::power::{BrightNess, CPUFreq, LenovoBattery, Power};
use wayfire_settings::settings::Settings;

#[test]
fn governor_names_are_read() {
    assert_eq!(CPUFreq::from_str("performance"), CPUFreq::Performance);
    assert_eq!(CPUFreq::from_str("powersave"), CPUFreq::Powersave);
    assert_eq!(CPUFreq::from_str("userspace"), CPUFreq::Userspace);
    assert_eq!(CPUFreq::from_str("ondemand"), CPUFreq::Ondemand);
    assert_eq!(CPUFreq::from_str("conservative"), CPUFreq::Conservative);
    assert_eq!(CPUFreq::from_str("schedutil"), CPUFreq::Schedutil);
    assert_eq!(CPUFreq::from_str("turbo"), CPUFreq::Unknown);
    assert_eq!(CPUFreq::from_file_text("schedutil\n"), CPUFreq::Schedutil);
    assert_eq!(CPUFreq::from_file_text("\u{c}powersave\u{b}\n"), CPUFreq::Powersave);
}

#[test]
fn governor_labels() {
    assert_eq!(CPUFreq::Performance.as_str(), "performance");
    assert_eq!(CPUFreq::Ondemand.as_str(), "Ondemand");
    assert_eq!(CPUFreq::Unknown.as_str(), "unknown");
}

#[test]
fn conservation_switch_is_read() {
    let on = LenovoBattery::new(Some("1\n"));
    assert!(on.lenovo && on.saving);
    let signed = LenovoBattery::new(Some("+1"));
    assert!(signed.lenovo && signed.saving);
    let off = LenovoBattery::new(Some("0\n"));
    assert!(off.lenovo && !off.saving);
    let absent = LenovoBattery::new(None);
    assert!(!absent.lenovo && !absent.saving);
    let garbled = LenovoBattery::new(Some("on"));
    assert!(garbled.lenovo && !garbled.saving);
}

#[test]
fn brightness_percent_and_level() {
    let b = BrightNess::new("/sys/class/backlight/intel".to_string(), 100, 200);
    assert_eq!(b.percent, 50);
    assert_eq!(b.level(), 100);
    let c = BrightNess { max_brightness: 255, percent: 33, bright_device: String::new() };
    assert_eq!(c.level(), 84);
    let none = BrightNess::new(String::new(), 10, 0);
    assert_eq!(none.percent, 0);
    let over = BrightNess::new(String::new(), 255, 50);
    assert_eq!(over.percent, 255);
}

#[test]
fn brightness_file_levels() {
    assert_eq!(BrightNess::get_num_from_file("120\n"), 120);
    assert_eq!(BrightNess::get_num_from_file("300\n"), 0);
    assert_eq!(BrightNess::get_num_from_file("dim"), 0);
    assert_eq!(BrightNess::get_num_from_file("+5"), 5);
}

#[test]
fn power_panel_names() {
    let p = Power::new(
        BrightNess::new(String::new(), 1, 2),
        LenovoBattery::new(None),
        CPUFreq::Schedutil,
    );
    assert_eq!(p.name(), "Power Manager");
    assert_eq!(p.heading(), "Power Manager");
    assert_eq!(p.brightness.name(), "BrightNess");
}
