use wayfire_settings::network::{Network, RowError};
use wayfire_settings::settings::Settings;

const ROWS: &str = "*:AA\\:BB\\:CC\\:DD\\:EE\\:FF:MyWifi:Infra:6:130 Mbit/s:80:▂▄▆_:WPA2\n :11\\:22\\:33\\:44\\:55\\:66:Cafe\\: Free:Infra:11:54 Mbit/s:35:▂▄__:\n";

#[test]
fn access_point_row_parses_to_expected_wifi() {
    let mut n = Network::new();
    assert_eq!(n.scan_wifi("*:AA\\:BB\\:CC\\:DD\\:EE\\:FF:MyWifi:Infra:6:130 Mbit/s:80:▂▄▆_:WPA2"), Ok(()));
    let w = &n.wifis()[0];
    assert_eq!(w.bssid, "AA:BB:CC:DD:EE:FF");
    assert_eq!(w.ssid, "MyWifi");
    assert_eq!(w.mode, "Infra");
    assert_eq!(w.chan, 6);
    assert_eq!(w.rate, "130 Mbit/s");
    assert_eq!(w.signal, 80);
    assert_eq!(w.bars, "▂▄▆_");
    assert_eq!(w.security, "WPA2");
    assert_eq!(n.current_wifi(), Some("AA:BB:CC:DD:EE:FF".to_string()));
}

#[test]
fn escaped_colons_are_restored_in_every_field() {
    let mut n = Network::new();
    assert_eq!(n.scan_wifi(ROWS), Ok(()));
    assert_eq!(n.wifis().len(), 2);
    let w = &n.wifis()[1];
    assert_eq!(w.bssid, "11:22:33:44:55:66");
    assert_eq!(w.bssid.split(':').count(), 6);
    assert_eq!(w.ssid, "Cafe: Free");
    assert_eq!(w.security, "");
    assert_eq!(n.current_wifi(), Some("AA:BB:CC:DD:EE:FF".to_string()));
}

#[test]
fn listing_without_mark_has_no_current_wifi() {
    let mut n = Network::new();
    assert_eq!(n.scan_wifi(" :11\\:22\\:33\\:44\\:55\\:66:Cafe:Infra:11:54 Mbit/s:35:▂▄__:WPA1\n"), Ok(()));
    assert_eq!(n.current_wifi(), None);
}

#[test]
fn malformed_row_refuses_the_listing() {
    let mut n = Network::new();
    assert_eq!(n.scan_wifi(ROWS), Ok(()));
    let short = format!("{}:AA\\:BB:Short\n", ROWS);
    assert_eq!(n.scan_wifi(&short), Err(RowError::MalformedRow(2)));
    assert_eq!(n.wifis().len(), 2);
    let loud = "*:AA\\:BB\\:CC\\:DD\\:EE\\:FF:X:Infra:6:54 Mbit/s:101:_:WPA2\n";
    assert_eq!(n.scan_wifi(loud), Err(RowError::MalformedRow(0)));
    let no_chan = "*:AA\\:BB\\:CC\\:DD\\:EE\\:FF:X:Infra:0:54 Mbit/s:10:_:WPA2\n";
    assert_eq!(n.scan_wifi(no_chan), Err(RowError::MalformedRow(0)));
    let bad_addr = "*:AA\\:BB\\:CC\\:DD\\:EE\\:GG:X:Infra:6:54 Mbit/s:10:_:WPA2\n";
    assert_eq!(n.scan_wifi(bad_addr), Err(RowError::MalformedRow(0)));
}

#[test]
fn devices_are_named_by_first_field() {
    let mut n = Network::new();
    n.get_devices("wlan0:wifi:connected:MyWifi\nlo:loopback:unmanaged:\n");
    let names: Vec<&str> = n.devices().iter().map(|d| d.device.as_str()).collect();
    assert_eq!(names, vec!["wlan0", "lo"]);
    assert!(n.devices().iter().all(|d| d.status));
}

#[test]
fn known_connections_are_kept_once_in_order() {
    let mut n = Network::new();
    n.get_known_wifi("Home;uuid-1;wifi\nWork;uuid-2\nHome;uuid-3\nPlain\n");
    assert_eq!(n.known_wifis(), &vec!["Home".to_string(), "Work".to_string(), "Plain".to_string()]);
}

#[test]
fn init_reads_all_three_listings() {
    let mut n = Network::default();
    assert!(!n.is_init());
    assert_eq!(n.init("wlan0:wifi:connected:MyWifi\n", ROWS, "Home;1\n"), Ok(()));
    assert!(n.is_init());
    assert_eq!(n.devices().len(), 1);
    assert_eq!(n.wifis().len(), 2);
    assert_eq!(n.known_wifis().len(), 1);
    assert_eq!(n.name(), "Network");
}

#[test]
fn failed_init_changes_nothing() {
    let mut n = Network::new();
    assert_eq!(n.init("wlan0:wifi\n", "x:y\n", "Home\n"), Err(RowError::MalformedRow(0)));
    assert!(!n.is_init());
    assert!(n.devices().is_empty());
}

#[test]
fn numeric_fields_may_carry_a_plus() {
    let mut n = Network::new();
    let row = "*:AA\\:BB\\:CC\\:DD\\:EE\\:FF:X:Infra:+6:54 Mbit/s:+70:_:WPA2\n";
    assert_eq!(n.scan_wifi(row), Ok(()));
    assert_eq!(n.wifis()[0].chan, 6);
    assert_eq!(n.wifis()[0].signal, 70);
}

#[test]
fn current_wifi_is_set_only_to_a_listed_address() {
    let mut n = Network::new();
    assert_eq!(n.scan_wifi(ROWS), Ok(()));
    assert!(n.set_current_wifi("11:22:33:44:55:66"));
    assert_eq!(n.current_wifi(), Some("11:22:33:44:55:66".to_string()));
    assert!(!n.set_current_wifi("00:00:00:00:00:00"));
    assert_eq!(n.current_wifi(), Some("11:22:33:44:55:66".to_string()));
    assert!(n.has_wifi("AA:BB:CC:DD:EE:FF"));
}
