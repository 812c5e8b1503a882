use mdns_repeater::parser::message::DnsMessage;
use mdns_repeater::processor::plan_destinations;
use mdns_repeater::processor::plan_packet;
use mdns_repeater::Config;
use mdns_repeater::MdnsConfig;

fn name_bytes(name: &str) -> Vec<u8> {
    let mut out = Vec::new();
    for label in name.split('.') {
        out.push(label.len() as u8);
        out.extend_from_slice(label.as_bytes());
    }
    out.push(0);
    out
}

fn query_packet(qname: &str) -> Vec<u8> {
    let mut p = vec![0x12, 0x34, 0x01, 0x00, 0x00, 0x01, 0x00, 0x00, 0x00, 0x00, 0x00, 0x00];
    p.extend_from_slice(&name_bytes(qname));
    p.extend_from_slice(&[0x00, 0x0c, 0x00, 0x01]);
    p
}

fn answer_packet(name: &str) -> Vec<u8> {
    let mut p = vec![0x12, 0x34, 0x84, 0x00, 0x00, 0x00, 0x00, 0x01, 0x00, 0x00, 0x00, 0x00];
    p.extend_from_slice(&name_bytes(name));
    p.extend_from_slice(&[0x00, 0x01, 0x00, 0x01, 0x00, 0x00, 0x00, 0x78, 0x00, 0x04]);
    p.extend_from_slice(&[10, 0, 0, 1]);
    p
}

fn strings(items: &[&str]) -> Vec<String> {
    items.iter().map(|s| s.to_string()).collect()
}

fn rule(sources: &[&str], destinations: &[&str], filters: &[&str]) -> MdnsConfig {
    MdnsConfig {
        destinations: strings(destinations),
        sources: strings(sources),
        filters: strings(filters),
    }
}

#[test]
fn no_self_forward() {
    let config = Config { mdns: vec![rule(&["A", "B"], &["C"], &[])] };
    let msg = DnsMessage::parse(&answer_packet("printer.local")).unwrap();
    let plan = plan_destinations(&config, &"A".to_string(), &msg);
    assert!(!plan.contains(&"A".to_string()));
    assert_eq!(plan, vec!["C".to_string()]);
}

#[test]
fn filter_blocks_other_names() {
    let config = Config { mdns: vec![rule(&["eth0"], &["wlan0"], &["foo.local"])] };
    let msg = DnsMessage::parse(&query_packet("bar.local")).unwrap();
    let plan = plan_destinations(&config, &"wlan0".to_string(), &msg);
    assert!(plan.is_empty());
}

#[test]
fn filter_passes_listed_name() {
    let config = Config { mdns: vec![rule(&["eth0"], &["wlan0"], &["foo.local"])] };
    let msg = DnsMessage::parse(&query_packet("foo.local")).unwrap();
    let plan = plan_destinations(&config, &"wlan0".to_string(), &msg);
    assert_eq!(plan, vec!["eth0".to_string()]);
}

#[test]
fn concrete_query_scenario() {
    let config = Config { mdns: vec![rule(&["eth0"], &["wlan0"], &[])] };
    let payload = query_packet("printer.local");
    let plan = plan_packet(&config, &"wlan0".to_string(), &payload).unwrap();
    assert_eq!(plan, vec!["eth0".to_string()]);
}

#[test]
fn bad_payload_reports_parse_error() {
    let config = Config { mdns: vec![rule(&["eth0"], &["wlan0"], &[])] };
    let r = plan_packet(&config, &"wlan0".to_string(), &[0u8; 5]);
    assert!(r.is_err());
}

#[test]
fn duplicate_destination_sent_once() {
    let config = Config {
        mdns: vec![rule(&["eth0"], &["wlan0"], &[]), rule(&["eth0"], &["wlan1"], &[])],
    };
    let msg = DnsMessage::parse(&answer_packet("printer.local")).unwrap();
    let plan = plan_destinations(&config, &"eth0".to_string(), &msg);
    assert_eq!(plan.len(), 2);
    assert!(plan.contains(&"wlan0".to_string()));
    assert!(plan.contains(&"wlan1".to_string()));

    let both = Config {
        mdns: vec![rule(&["eth0"], &["wlan0"], &[]), rule(&["eth0"], &["wlan0"], &[])],
    };
    let plan = plan_destinations(&both, &"eth0".to_string(), &msg);
    assert_eq!(plan, vec!["wlan0".to_string()]);
}

#[test]
fn unrelated_interface_no_action() {
    let config = Config { mdns: vec![rule(&["eth0"], &["wlan0"], &[])] };
    let msg = DnsMessage::parse(&query_packet("printer.local")).unwrap();
    let plan = plan_destinations(&config, &"dock0".to_string(), &msg);
    assert!(plan.is_empty());
}

#[test]
fn query_goes_from_destination_to_sources() {
    let config = Config { mdns: vec![rule(&["eth0", "eth1"], &["wlan0"], &[])] };
    let msg = DnsMessage::parse(&query_packet("printer.local")).unwrap();
    let plan = plan_destinations(&config, &"wlan0".to_string(), &msg);
    assert_eq!(plan, vec!["eth0".to_string(), "eth1".to_string()]);
    // A query arriving on a source is not forwarded anywhere.
    let plan = plan_destinations(&config, &"eth0".to_string(), &msg);
    assert!(plan.is_empty());
}

#[test]
fn answer_goes_from_source_to_destinations() {
    let config = Config { mdns: vec![rule(&["eth0"], &["wlan0", "wlan1"], &[])] };
    let msg = DnsMessage::parse(&answer_packet("printer.local")).unwrap();
    let plan = plan_destinations(&config, &"eth0".to_string(), &msg);
    assert_eq!(plan, vec!["wlan0".to_string(), "wlan1".to_string()]);
    // An answer arriving on a destination is not forwarded anywhere.
    let plan = plan_destinations(&config, &"wlan0".to_string(), &msg);
    assert!(plan.is_empty());
}

#[test]
fn filters_apply_to_answers_too() {
    let config = Config { mdns: vec![rule(&["eth0"], &["wlan0"], &["printer.local"])] };
    let good = DnsMessage::parse(&answer_packet("printer.local")).unwrap();
    let bad = DnsMessage::parse(&answer_packet("camera.local")).unwrap();
    assert_eq!(
        plan_destinations(&config, &"eth0".to_string(), &good),
        vec!["wlan0".to_string()]
    );
    assert!(plan_destinations(&config, &"eth0".to_string(), &bad).is_empty());
}

#[test]
fn arrival_interface_excluded_from_candidates() {
    // The arrival interface is itself among the rule's sources: a query
    // arriving on it must go to the other sources only.
    let config = Config { mdns: vec![rule(&["eth0", "wlan0"], &["wlan0"], &[])] };
    let msg = DnsMessage::parse(&query_packet("printer.local")).unwrap();
    let plan = plan_destinations(&config, &"wlan0".to_string(), &msg);
    assert_eq!(plan, vec!["eth0".to_string()]);
}
