use airboard::discovery::{
    accept_announcement, announcer_status_message, device_announcement, get_broadcast_addresses,
    local_broadcasts_from_ip_output, DISCOVERY_PORT,
};

fn announcement(id: &str) -> airboard::discovery::DeviceAnnouncement {
    device_announcement("Laptop".into(), id.into(), "linux".into(), 45455)
}

#[test]
fn own_announcement_has_the_announcement_type() {
    let a = announcement("me");
    assert_eq!(a.msg_type, "device_announcement");
    assert_eq!(a.device_name, "Laptop");
    assert_eq!(a.device_id, "me");
    assert_eq!(a.platform, "linux");
    assert_eq!(a.ws_port, 45455);
    assert_eq!(DISCOVERY_PORT, 45454);
}

#[test]
fn announcements_are_accepted_only_from_other_plausible_devices() {
    let me = "me".to_string();
    assert!(accept_announcement(&announcement("peer"), &me));
    assert!(!accept_announcement(&announcement("me"), &me));
    assert!(!accept_announcement(&announcement(""), &me));
    assert!(accept_announcement(&announcement(&"x".repeat(128)), &me));
    assert!(!accept_announcement(&announcement(&"x".repeat(129)), &me));
    // The limit counts UTF-8 bytes: 43 three-byte characters are 129 bytes.
    assert!(!accept_announcement(&announcement(&"€".repeat(43)), &me));
    assert!(accept_announcement(&announcement(&"€".repeat(42)), &me));
    let mut wrong_type = announcement("peer");
    wrong_type.msg_type = "clipboard_update".into();
    assert!(!accept_announcement(&wrong_type, &me));
}

#[test]
fn announcer_status_counts_destinations() {
    assert_eq!(
        announcer_status_message(5),
        "LAN discovery announcing on UDP 45454 to 5 broadcast/multicast destinations."
    );
}

#[test]
fn destinations_without_local_information_are_the_fixed_ones() {
    let r = get_broadcast_addresses(Vec::new(), None, None);
    assert_eq!(r, vec![vec![239, 255, 45, 54], vec![255, 255, 255, 255]]);
}

#[test]
fn destinations_are_sorted_and_free_of_repeats() {
    let ifaces = vec![
        vec![192, 168, 1, 255],
        vec![127, 255, 255, 255],
        vec![0, 0, 0, 0],
        vec![255, 255, 255, 255],
        vec![192, 168, 1, 255],
    ];
    let r = get_broadcast_addresses(ifaces, Some(vec![192, 168, 1, 20]), Some(vec![10, 0, 0, 5]));
    assert_eq!(
        r,
        vec![
            vec![192, 168, 1, 255],
            vec![192, 168, 255, 255],
            vec![239, 255, 45, 54],
            vec![255, 255, 255, 255],
        ]
    );
}

#[test]
fn routed_address_is_used_without_a_dynamic_one() {
    let r = get_broadcast_addresses(Vec::new(), None, Some(vec![10, 1, 2, 3]));
    assert_eq!(
        r,
        vec![
            vec![10, 1, 2, 255],
            vec![10, 1, 255, 255],
            vec![239, 255, 45, 54],
            vec![255, 255, 255, 255],
        ]
    );
}

#[test]
fn ios_hotspot_subnet_gets_its_broadcast() {
    let r = get_broadcast_addresses(Vec::new(), Some(vec![172, 20, 10, 2]), None);
    assert_eq!(
        r,
        vec![
            vec![172, 20, 10, 15],
            vec![172, 20, 10, 255],
            vec![172, 20, 255, 255],
            vec![239, 255, 45, 54],
            vec![255, 255, 255, 255],
        ]
    );
}

#[test]
fn loopback_local_address_derives_nothing_and_ipv6_sorts_last() {
    let v6 = vec![0xfe, 0x80, 0, 0, 0, 0, 0, 0, 0, 0, 0, 0, 0, 0, 0, 1];
    let r = get_broadcast_addresses(vec![v6.clone()], Some(vec![127, 0, 0, 1]), None);
    assert_eq!(r, vec![vec![239, 255, 45, 54], vec![255, 255, 255, 255], v6]);
}

#[test]
fn ip_addr_output_yields_interface_broadcasts() {
    let output = "1: lo: <LOOPBACK,UP,LOWER_UP> mtu 65536 qdisc noqueue state UNKNOWN\n    link/loopback 00:00:00:00:00:00 brd 00:00:00:00:00:00\n    inet 127.0.0.1/8 scope host lo\n       valid_lft forever preferred_lft forever\n2: wlan0: <BROADCAST,MULTICAST,UP,LOWER_UP> mtu 1500\n    inet 192.168.1.20/24 brd 192.168.1.255 scope global dynamic wlan0\n    inet6 fe80::1/64 scope link\n3: eth0: <BROADCAST>\r\n\tinet 10.0.0.5/16 brd 10.0.255.255 scope global eth0\r\n";
    assert_eq!(
        local_broadcasts_from_ip_output(output),
        vec!["192.168.1.255".to_string(), "10.0.255.255".to_string()]
    );
}

#[test]
fn ip_addr_lines_need_inet_and_brd_in_place() {
    assert!(local_broadcasts_from_ip_output("").is_empty());
    assert!(local_broadcasts_from_ip_output("inet 1.2.3.4/24 brd").is_empty());
    assert!(local_broadcasts_from_ip_output("inet\t1.2.3.4/24 brd 1.2.3.255").is_empty());
    assert!(local_broadcasts_from_ip_output("inet6 1.2.3.4/24 brd 1.2.3.255").is_empty());
    assert!(local_broadcasts_from_ip_output("inet 1.2.3.4/24 peer 1.2.3.255").is_empty());
    assert_eq!(
        local_broadcasts_from_ip_output("inet 1.2.3.4/24  brd   1.2.3.255"),
        vec!["1.2.3.255".to_string()]
    );
    assert_eq!(
        local_broadcasts_from_ip_output("  inet a b brd\ninet x brd z"),
        vec!["z".to_string()]
    );
}
