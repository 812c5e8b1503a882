use mdns_repeater::directory::InterfaceDirectory;
use mdns_repeater::directory::InterfaceEntry;
use mdns_repeater::socket::group_interfaces;
use mdns_repeater::socket::multicast_join_targets;
use mdns_repeater::socket::IfAddr;
use mdns_repeater::socket::MulticastOptions;

fn entry(name: &str, index: u32, addresses: Vec<IfAddr>) -> InterfaceEntry {
    InterfaceEntry { name: name.to_string(), index, addresses }
}

#[test]
fn options_default_values() {
    let o = MulticastOptions::default();
    assert_eq!(o.read_timeout_ms, 1000);
    assert_eq!(o.buffer_size, 4096);
}

#[test]
fn group_interfaces_groups_by_name_and_drops_loopback() {
    let raw = vec![
        ("eth0".to_string(), IfAddr::V4([192, 168, 1, 2])),
        ("lo".to_string(), IfAddr::V4([127, 0, 0, 1])),
        ("eth0".to_string(), IfAddr::V6([0x20; 16])),
        ("wlan0".to_string(), IfAddr::V4([10, 0, 0, 7])),
    ];
    let grouped = group_interfaces(&raw);
    assert_eq!(grouped.len(), 2);
    let eth0 = grouped.iter().find(|g| g.0 == "eth0").unwrap();
    assert_eq!(
        eth0.1,
        vec![IfAddr::V4([192, 168, 1, 2]), IfAddr::V6([0x20; 16])]
    );
    let wlan0 = grouped.iter().find(|g| g.0 == "wlan0").unwrap();
    assert_eq!(wlan0.1, vec![IfAddr::V4([10, 0, 0, 7])]);
    assert!(grouped.iter().all(|g| g.0 != "lo"));
}

#[test]
fn join_targets_skip_loopback_and_v6() {
    let interfaces = vec![
        (
            "eth0".to_string(),
            vec![
                IfAddr::V4([192, 168, 1, 2]),
                IfAddr::V4([127, 0, 0, 1]),
                IfAddr::V6([1; 16]),
            ],
        ),
        ("wlan0".to_string(), vec![IfAddr::V4([10, 0, 0, 7])]),
    ];
    let targets = multicast_join_targets(&interfaces);
    assert_eq!(targets, vec![[192, 168, 1, 2], [10, 0, 0, 7]]);
}

#[test]
fn directory_lookups() {
    let d = InterfaceDirectory::new(vec![
        entry("eth0", 2, vec![IfAddr::V4([192, 168, 1, 2])]),
        entry("wlan0", 3, vec![IfAddr::V4([10, 0, 0, 7])]),
    ]);
    assert_eq!(d.name_to_index(&"eth0".to_string()), Some(2));
    assert_eq!(d.name_to_index(&"wlan0".to_string()), Some(3));
    assert_eq!(d.name_to_index(&"dock0".to_string()), None);
    assert_eq!(d.index_to_name(3), Some("wlan0".to_string()));
    assert_eq!(d.index_to_name(9), None);
}

#[test]
fn directory_first_match_wins() {
    let d = InterfaceDirectory::new(vec![
        entry("eth0", 2, vec![]),
        entry("eth0", 5, vec![]),
    ]);
    assert_eq!(d.name_to_index(&"eth0".to_string()), Some(2));
}
