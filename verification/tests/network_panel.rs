use system_monitor::network::{AddressRecord, InterfaceRecord, NetworkWidget};
use system_monitor::style::{Reading, Tint};

fn iface(name: &str, addrs: &[(bool, &str)]) -> InterfaceRecord {
    InterfaceRecord {
        name: name.to_string(),
        addresses: addrs.iter().map(|(v4, t)| AddressRecord { is_ipv4: *v4, text: t.to_string() }).collect(),
        received: 0,
        transmitted: 0,
    }
}

#[test]
fn loopback_and_container_links_are_hidden() {
    let v4 = [(true, "10.0.0.2")];
    assert!(!NetworkWidget::is_listed(&iface("lo", &v4)));
    assert!(!NetworkWidget::is_listed(&iface("lo0", &v4)));
    assert!(!NetworkWidget::is_listed(&iface("docker0", &v4)));
    assert!(!NetworkWidget::is_listed(&iface("br-1234", &v4)));
    assert!(!NetworkWidget::is_listed(&iface("veth99", &v4)));
    assert!(NetworkWidget::is_listed(&iface("eth0", &v4)));
}

#[test]
fn interfaces_without_ipv4_are_hidden() {
    assert!(!NetworkWidget::is_listed(&iface("eth0", &[(false, "fe80::1")])));
    assert!(!NetworkWidget::is_listed(&iface("eth0", &[])));
    assert!(NetworkWidget::is_listed(&iface("eth0", &[(false, "fe80::1"), (true, "192.168.1.5")])));
}

#[test]
fn listing_keeps_order() {
    let v4 = [(true, "10.0.0.2")];
    let all = vec![iface("lo", &v4), iface("en0", &v4), iface("utun3", &[]), iface("wlan0", &v4)];
    let shown = NetworkWidget::get_interfaces(&all);
    let names: Vec<&str> = shown.iter().map(|r| r.name.as_str()).collect();
    assert_eq!(names, vec!["en0", "wlan0"]);
}

#[test]
fn listing_twice_changes_nothing() {
    let v4 = [(true, "10.0.0.2")];
    let all = vec![iface("lo", &v4), iface("en0", &v4), iface("eth1", &[])];
    let once: Vec<InterfaceRecord> = NetworkWidget::get_interfaces(&all)
        .iter()
        .map(|r| iface(r.name.as_str(), &v4))
        .collect();
    let twice = NetworkWidget::get_interfaces(&once);
    assert_eq!(twice.len(), once.len());
}

#[test]
fn interface_type_labels() {
    assert_eq!(NetworkWidget::kind_label("en0"), "WiFi");
    assert_eq!(NetworkWidget::kind_label("utun3"), "VPN");
    assert_eq!(NetworkWidget::kind_label("tailscale0"), "VPN");
    assert_eq!(NetworkWidget::kind_label("wg0"), "VPN");
    assert_eq!(NetworkWidget::kind_label("wlan0"), "WiFi");
    assert_eq!(NetworkWidget::kind_label("eth0"), "ETH");
    assert_eq!(NetworkWidget::kind_label("eno1"), "ETH");
    assert_eq!(NetworkWidget::kind_label("ens33"), "ETH");
    assert_eq!(NetworkWidget::kind_label("en7bridge"), "ETH");
    assert_eq!(NetworkWidget::kind_label("Ethernet 2"), "Ethe");
    assert_eq!(NetworkWidget::kind_label("ppp"), "ppp");
}

#[test]
fn interface_tints() {
    assert_eq!(NetworkWidget::kind_tint("utun0"), Tint::Blue);
    assert_eq!(NetworkWidget::kind_tint("wg1"), Tint::Blue);
    assert_eq!(NetworkWidget::kind_tint("en0"), Tint::White);
}

#[test]
fn interface_row_cells() {
    assert_eq!(NetworkWidget::label_cell("en0"), " WiFi ");
    assert_eq!(NetworkWidget::label_cell("ppp"), " ppp  ");
    let r = iface("en0", &[(false, "fe80::1"), (true, "192.168.1.5"), (true, "10.0.0.1")]);
    assert_eq!(NetworkWidget::address_cell(&r), "192.168.1.5     ");
    assert_eq!(NetworkWidget::address_cell(&iface("x", &[])), "                ");
}

#[test]
fn speed_readings_switch_units() {
    match NetworkWidget::format_speed(1023) {
        Reading::Exact(s) => assert_eq!(s, "1023"),
        _ => panic!("expected exact"),
    }
    match NetworkWidget::format_speed(1024) {
        Reading::Scaled { divisor, decimals, suffix } => {
            assert_eq!((divisor, decimals, suffix.as_str()), (1024, 1, "K"))
        }
        _ => panic!("expected scaled"),
    }
    match NetworkWidget::format_speed(3 * 1024 * 1024) {
        Reading::Scaled { divisor, suffix, .. } => assert_eq!((divisor, suffix.as_str()), (1_048_576, "M")),
        _ => panic!("expected scaled"),
    }
    match NetworkWidget::format_speed(1 << 30) {
        Reading::Scaled { divisor, suffix, .. } => assert_eq!((divisor, suffix.as_str()), (1 << 30, "G")),
        _ => panic!("expected scaled"),
    }
}

#[test]
fn widget_keeps_its_interfaces() {
    let w = NetworkWidget::new(vec![iface("en0", &[])]);
    assert_eq!(w.interfaces().len(), 1);
}
