use wayfire_settings::appearance::Appearance;
use wayfire_settings::settings::{MySettings, Settings};

fn strings(v: &[&str]) -> Vec<String> {
    v.iter().map(|s| s.to_string()).collect()
}

#[test]
fn complete_theme_directories() {
    let all = strings(&["gtk-4.0", "gnome-shell", "index.theme", "xfwm4", "gtk-3.0", "gtk-2.0"]);
    assert!(Appearance::is_complete_theme_dir(true, &all));
    assert!(!Appearance::is_complete_theme_dir(false, &all));
    let partial = strings(&["gtk-3.0", "gtk-2.0", "gnome-shell", "xfwm4"]);
    assert!(!Appearance::is_complete_theme_dir(true, &partial));
}

#[test]
fn themes_are_numbered_and_system_theme_chosen() {
    let mut a = Appearance::default();
    assert!(!a.is_init());
    a.init(&strings(&["Adwaita", "Arc-Dark", "Nordic"]), "Arc-Dark");
    assert!(a.is_init());
    assert_eq!(a.now(), 2);
    assert_eq!(a.theme(3), Some(&"Nordic".to_string()));
    assert_eq!(a.theme(0), None);
    assert_eq!(a.theme(4), None);
    assert_eq!(
        a.apply_args(),
        vec![
            strings(&["set", "org.gnome.desktop.interface", "gtk-theme", "Arc-Dark"]),
            strings(&["set", "org.gnome.desktop.wm.preferences", "theme", "Arc-Dark"]),
        ]
    );
}

#[test]
fn no_chosen_theme_applies_nothing() {
    let mut a = Appearance::new();
    a.init(&strings(&["Adwaita"]), "Missing");
    assert_eq!(a.now(), 0);
    assert!(a.apply_args().is_empty());
    assert!(!a.set_now(2));
    assert!(a.set_now(1));
    assert_eq!(a.apply_args().len(), 2);
}

#[test]
fn gsettings_output_is_unquoted() {
    assert_eq!(Appearance::gtk_theme_from_output("'Adwaita-dark'\n"), "Adwaita-dark");
    assert_eq!(Appearance::gtk_theme_from_output("  \n"), "");
    assert_eq!(Appearance::gtk_theme_from_output("'Adwaita'\u{b}\n"), "Adwaita");
}

#[test]
fn panels_are_kept_in_key_order() {
    let mut s: MySettings<&str> = MySettings::default();
    s.add_label(3, "power");
    s.add_label(1, "displays");
    s.add_label(2, "appearance");
    s.add_label(1, "outputs");
    let keys: Vec<u8> = s.labels().iter().map(|(k, _)| *k).collect();
    assert_eq!(keys, vec![1, 2, 3]);
    assert_eq!(s.get(1), Some(&"outputs"));
    assert_eq!(s.get(4), None);
    assert_eq!(s.now(), 0);
    s.select(2);
    assert_eq!(s.now(), 2);
}
