use domain_egress::local_net::{hardware_ports, hostname_text, interface_addresses};

#[test]
fn hardware_ports_are_read_per_entry() {
    let text = "\nHardware Port: Wi-Fi\nDevice: en0\nEthernet Address: aa:bb\n\nHardware Port: Thunderbolt Bridge\nDevice: bridge0\nEthernet Address: N/A\n\nHardware Port: Bluetooth PAN \nDevice:  en5 \n";
    let ports = hardware_ports(text);
    assert_eq!(
        ports,
        vec![
            ("Wi-Fi".to_string(), "en0".to_string()),
            ("Thunderbolt Bridge".to_string(), "bridge0".to_string()),
            ("Bluetooth PAN".to_string(), "en5".to_string()),
        ]
    );
    assert!(hardware_ports("Hardware Port: X\n\n").is_empty());
    assert!(hardware_ports("").is_empty());
}

#[test]
fn interface_addresses_drop_zones() {
    let body = "en0: flags=8863<UP> mtu 1500\n\tinet6 fe80::1%en0 prefixlen 64 scopeid 0x4\n\tinet 192.168.1.20 netmask 0xffffff00 broadcast 192.168.1.255\n\tinet\n\tstatus: active\n";
    assert_eq!(interface_addresses(body), vec!["fe80::1", "192.168.1.20"]);
    assert!(interface_addresses("lo0: flags\n").is_empty());
}

#[test]
fn host_name_falls_back() {
    assert_eq!(hostname_text(true, b"mac-mini\n"), "mac-mini");
    assert_eq!(hostname_text(true, b"  \n"), "本机");
    assert_eq!(hostname_text(false, b"mac-mini\n"), "本机");
}
