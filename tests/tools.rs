use std::time::{self, SystemTime};

#[test]
fn time_test() {
    println!("sadsada");
    let st = time::SystemTime::now();
    println!(
        "{:?}",
        st.duration_since(SystemTime::UNIX_EPOCH).unwrap().as_secs()
    );
}

#[test]
fn library_links() {
    let t = wayfire_settings::display::Transform::default();
    assert_eq!(t.as_str(), "normal");
}
