use system_utils::metrics::{
    disks_section, gpu_name, gpu_names, interface_type, memory_section, networks_section, proxy_section,
    is_card_entry, read_counter, system_section, DiskInfo, IpAddressText, MemoryInfo, NetworkInfo, ProxyInfo,
};

#[test]
fn interface_kinds() {
    assert_eq!(interface_type("lo"), "Loopback");
    assert_eq!(interface_type("LO"), "Loopback");
    assert_eq!(interface_type("wlp3s0"), "Wi-Fi");
    assert_eq!(interface_type("WiFi0"), "Wi-Fi");
    assert_eq!(interface_type("enp0s31f6"), "Ethernet");
    assert_eq!(interface_type("eth0"), "Ethernet");
    assert_eq!(interface_type("tun0"), "VPN");
    assert_eq!(interface_type("wg0"), "VPN");
    assert_eq!(interface_type("tailscale0"), "VPN");
    assert_eq!(interface_type("docker0"), "Unknown");
    assert_eq!(interface_type("lo0"), "Unknown");
}

#[test]
fn memory_figures() {
    let m = MemoryInfo::from_counters(8, 10, 4, 1);
    assert_eq!(m.free, 0);
    let m = MemoryInfo::from_counters(16, 10, 4, 1);
    assert_eq!(m.free, 6);
    assert_eq!(m.swap_total, 4);
    let d = DiskInfo::from_counters("sda1".into(), "/".into(), "ext4".into(), 100, 30);
    assert_eq!(d.used_space, 70);
    let d = DiskInfo::from_counters("sda1".into(), "/".into(), "ext4".into(), 100, 130);
    assert_eq!(d.used_space, 0);
}

#[test]
fn network_entry_from_interface() {
    let addrs = vec![
        IpAddressText { text: "192.168.1.2".into(), is_ipv4: true },
        IpAddressText { text: "fe80::1".into(), is_ipv4: false },
        IpAddressText { text: "10.0.0.2".into(), is_ipv4: true },
    ];
    let n = NetworkInfo::from_interface("wlan0".into(), &addrs, Some((1024, 2048)));
    assert_eq!(n.interface_type, "Wi-Fi");
    assert_eq!(n.status, "Up");
    assert_eq!(n.ipv4, vec!["192.168.1.2".to_string(), "10.0.0.2".to_string()]);
    assert_eq!(n.ipv6, vec!["fe80::1".to_string()]);
    assert_eq!((n.received, n.transmitted), (1024, 2048));
    let n = NetworkInfo::from_interface("eth1".into(), &vec![], None);
    assert_eq!(n.status, "Down");
    assert_eq!((n.received, n.transmitted), (0, 0));
}

#[test]
fn proxy_from_variables() {
    let p = ProxyInfo::from_vars(None, Some("http://l".into()), Some("https://u".into()), Some("https://l".into()), None, None, None, Some("localhost".into()));
    assert!(p.enabled);
    assert_eq!(p.http_proxy, Some("http://l".to_string()));
    assert_eq!(p.https_proxy, Some("https://u".to_string()));
    assert_eq!(p.all_proxy, None);
    assert_eq!(p.no_proxy, Some("localhost".to_string()));
    let p = ProxyInfo::from_vars(None, None, None, None, None, None, Some("x".into()), None);
    assert!(!p.enabled);
}

#[test]
fn gpu_names_are_short_and_distinct() {
    assert_eq!(gpu_name("NVIDIA GeForce RTX 3060 (RADV)"), "NVIDIA GeForce RTX 3060");
    assert_eq!(gpu_name("  llvmpipe  "), "llvmpipe");
    let names = gpu_names(&vec![
        "AMD Radeon (RADV NAVI)".to_string(),
        "llvmpipe (LLVM 17)".to_string(),
        "AMD Radeon".to_string(),
    ]);
    assert_eq!(names, vec!["AMD Radeon".to_string(), "llvmpipe".to_string()]);
}

#[test]
fn counters_from_sysfs_text() {
    assert_eq!(read_counter("8589934592\n"), Some(8_589_934_592));
    assert_eq!(read_counter("  12 "), Some(12));
    assert_eq!(read_counter("n/a"), None);
    assert_eq!(read_counter(""), None);
    assert_eq!(read_counter("18446744073709551616"), None);
}

#[test]
fn system_and_memory_sections() {
    assert_eq!(system_section(90061), "=== System ===\nUptime        : 1d 1h 1m\n");
    let m = MemoryInfo { total: 16 * 1_073_741_824, used: 4 * 1_073_741_824, free: 12 * 1_073_741_824, swap_total: 0, swap_used: 0 };
    assert_eq!(
        memory_section(&m),
        "\n=== MEMORY ===\nUsage         : 25.0%\nRAM           : 4.00 GB / 16.00 GB\nFree RAM      : 12.00 GB\nSwap          : 0 B / 0 B (0.0%)\n"
    );
}

#[test]
fn disks_section_separates_entries() {
    let disks = vec![
        DiskInfo { name: "nvme0n1p2".into(), mount_point: "/".into(), filesystem: "ext4".into(), total_space: 1000, available_space: 250, used_space: 750 },
        DiskInfo { name: "sdb1".into(), mount_point: "/mnt".into(), filesystem: "vfat".into(), total_space: 0, available_space: 0, used_space: 0 },
    ];
    assert_eq!(
        disks_section(&disks),
        [
            "\n=== DISKS ===\n",
            "nvme0n1p2\n  Mount       : /\n  Filesystem  : ext4\n  Usage       : 75.0%\n  Used        : 750 B / 1000 B\n  Free        : 250 B\n",
            "\n",
            "sdb1\n  Mount       : /mnt\n  Filesystem  : vfat\n  Usage       : 0.0%\n  Used        : 0 B / 0 B\n  Free        : 0 B\n",
        ]
        .concat()
    );
    assert_eq!(disks_section(&vec![]), "\n=== DISKS ===\n");
}

#[test]
fn networks_section_lists_addresses() {
    let nets = vec![
        NetworkInfo {
            name: "lo".into(),
            interface_type: "Loopback".into(),
            status: "Up".into(),
            ipv4: vec!["127.0.0.1".into()],
            ipv6: vec!["::1".into(), "fe80::1".into()],
            received: 2048,
            transmitted: 1_572_864,
        },
        NetworkInfo {
            name: "eth0".into(),
            interface_type: "Ethernet".into(),
            status: "Down".into(),
            ipv4: vec![],
            ipv6: vec![],
            received: 0,
            transmitted: 0,
        },
    ];
    assert_eq!(
        networks_section(&nets),
        [
            "\n=== NETWORKS ===\n",
            "lo\n  Type        : Loopback\n  Status      : Up\n  IPv4        : 127.0.0.1\n  IPv6        : ::1, fe80::1\n  RX          : 2.00 KB\n  TX          : 1.50 MB\n",
            "\n",
            "eth0\n  Type        : Ethernet\n  Status      : Down\n  RX          : 0 B\n  TX          : 0 B\n",
        ]
        .concat()
    );
}

#[test]
fn proxy_section_shows_set_values() {
    let p = ProxyInfo { enabled: true, http_proxy: Some("http://p:3128".into()), https_proxy: None, all_proxy: None, no_proxy: Some("localhost".into()) };
    assert_eq!(
        proxy_section(&p),
        "\n=== PROXY ===\nEnabled       : Yes\nHTTP Proxy    : http://p:3128\nNO Proxy      : localhost\n"
    );
    let p = ProxyInfo { enabled: false, http_proxy: None, https_proxy: None, all_proxy: None, no_proxy: None };
    assert_eq!(proxy_section(&p), "\n=== PROXY ===\nEnabled       : No\n");
}

#[test]
fn graphics_card_entries() {
    assert!(is_card_entry("card0"));
    assert!(is_card_entry("card1-HDMI-A-1"));
    assert!(!is_card_entry("renderD128"));
    assert!(!is_card_entry("version"));
    assert!(!is_card_entry("car"));
    assert!(!is_card_entry(""));
}
