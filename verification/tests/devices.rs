use system_utils::devices::audio::{audio_list, device_group_key};
use system_utils::devices::groups::group_devices;
use system_utils::devices::usb::usb_list;
use system_utils::devices::{
    AudioConfigInfo, AudioDeviceInfo, AudioDeviceType, AudioEndpointReport, CameraInfo, DevicesList, DisplayReport,
    MonitorInfo, UsbDescriptor, UsbDeviceType, UsbInterfaceDescriptor, UsbInterfaceType,
};

fn iface(class_code: u8) -> UsbInterfaceDescriptor {
    UsbInterfaceDescriptor { class_code, sub_class_code: 0, protocol_code: 0 }
}

fn usb_reports() -> Vec<UsbDescriptor> {
    vec![
        UsbDescriptor {
            vendor_id: 0x046d,
            product_id: 0xc52b,
            class_code: 0x00,
            sub_class_code: 0,
            protocol_code: 0,
            manufacturer: Some("Logitech".to_string()),
            product: Some("USB Receiver".to_string()),
            serial_number: None,
            interfaces: vec![iface(0x03), iface(0x03)],
            bus: 1,
            port: 2,
        },
        UsbDescriptor {
            vendor_id: 0x0000,
            product_id: 0x0001,
            class_code: 0x09,
            sub_class_code: 0,
            protocol_code: 0,
            manufacturer: None,
            product: Some("Root hub".to_string()),
            serial_number: None,
            interfaces: vec![],
            bus: 1,
            port: 0,
        },
        UsbDescriptor {
            vendor_id: 0x1234,
            product_id: 0xabcd,
            class_code: 0xff,
            sub_class_code: 0,
            protocol_code: 0,
            manufacturer: None,
            product: None,
            serial_number: Some("XYZ".to_string()),
            interfaces: vec![iface(0xff)],
            bus: 2,
            port: 1,
        },
        UsbDescriptor {
            vendor_id: 0x2341,
            product_id: 0x0043,
            class_code: 0x02,
            sub_class_code: 0,
            protocol_code: 0,
            manufacturer: Some("Arduino LLC".to_string()),
            product: Some("Arduino Uno".to_string()),
            serial_number: None,
            interfaces: vec![iface(0x02), iface(0x0a)],
            bus: 1,
            port: 3,
        },
    ]
}

#[test]
fn usb_list_classifies_filters_and_orders() {
    let list = usb_list(usb_reports());
    assert_eq!(list.len(), 3);

    assert_eq!(list[0].name, "Arduino Uno");
    assert_eq!(list[0].device_types, vec![UsbDeviceType::Serial, UsbDeviceType::Arduino]);
    assert_eq!(list[0].interface_types, vec![UsbInterfaceType::CdcAcm]);
    assert_eq!(list[0].vendor_id, "2341");
    assert_eq!(list[0].product_id, "0043");
    assert_eq!(list[0].device_class, Some(0x02));

    assert_eq!(list[1].name, "USB Receiver");
    assert_eq!(list[1].device_types, vec![UsbDeviceType::Receiver]);
    assert_eq!(list[1].interface_types, vec![UsbInterfaceType::Hid]);

    assert_eq!(list[2].name, "USB 1234:abcd");
    assert_eq!(list[2].device_types, vec![UsbDeviceType::VendorSpecific]);
    assert_eq!(list[2].interface_types, vec![UsbInterfaceType::VendorSpecific]);
    assert_eq!(list[2].serial_number, Some("XYZ".to_string()));
}

#[test]
fn usb_list_xbox_drops_vendor_specific() {
    let list = usb_list(vec![UsbDescriptor {
        vendor_id: 0x045e,
        product_id: 0x02ea,
        class_code: 0xff,
        sub_class_code: 0x47,
        protocol_code: 0xd0,
        manufacturer: Some("Microsoft".to_string()),
        product: Some("Controller".to_string()),
        serial_number: None,
        interfaces: vec![iface(0xff)],
        bus: 3,
        port: 4,
    }]);
    assert_eq!(list.len(), 1);
    assert_eq!(list[0].device_types, vec![UsbDeviceType::XboxController]);
    assert_eq!(list[0].interface_types, vec![UsbInterfaceType::VendorSpecific]);
}

#[test]
fn usb_list_without_known_type_is_unknown() {
    let list = usb_list(vec![UsbDescriptor {
        vendor_id: 0x1111,
        product_id: 0x2222,
        class_code: 0x00,
        sub_class_code: 0,
        protocol_code: 0,
        manufacturer: None,
        product: Some("Gadget".to_string()),
        serial_number: None,
        interfaces: vec![],
        bus: 1,
        port: 1,
    }]);
    assert_eq!(list[0].device_types, vec![UsbDeviceType::Unknown]);
    assert!(list[0].interface_types.is_empty());
}

fn cfg(channels: u16, min: u32, max: u32) -> AudioConfigInfo {
    AudioConfigInfo { channels, sample_rate_min: min, sample_rate_max: max }
}

fn audio_reports() -> (Vec<AudioEndpointReport>, Vec<AudioEndpointReport>) {
    let inputs = vec![
        AudioEndpointReport {
            name: "Built-in Audio Analog Stereo".to_string(),
            id: Some("hw:CARD=PCH,DEV=0".to_string()),
            kind: AudioDeviceType::Input,
            configs: vec![cfg(2, 44_100, 48_000), cfg(1, 1_000, 48_000)],
        },
        AudioEndpointReport {
            name: "Monitor of Speakers".to_string(),
            id: Some("x".to_string()),
            kind: AudioDeviceType::Input,
            configs: vec![],
        },
    ];
    let outputs = vec![
        AudioEndpointReport {
            name: "Built-in Audio Analog Stereo".to_string(),
            id: Some("front:CARD=PCH,DEV=0".to_string()),
            kind: AudioDeviceType::Output,
            configs: vec![cfg(2, 44_100, 48_000), cfg(6, 44_100, 48_000), cfg(2, 8_000, 1_000_000)],
        },
        AudioEndpointReport {
            name: "HDMI Output".to_string(),
            id: Some("hdmi:CARD=NVidia,DEV=0".to_string()),
            kind: AudioDeviceType::Output,
            configs: vec![],
        },
        AudioEndpointReport {
            name: "PipeWire Sound Server".to_string(),
            id: None,
            kind: AudioDeviceType::Output,
            configs: vec![],
        },
    ];
    (inputs, outputs)
}

#[test]
fn audio_list_merges_and_orders() {
    let (inputs, outputs) = audio_reports();
    let list = audio_list(&inputs, &None, &outputs, &Some("front:CARD=PCH,DEV=0".to_string()));
    assert_eq!(list.len(), 2);
    assert_eq!(list[0].name, "Built-in Audio Analog Stereo");
    assert_eq!(list[0].kind, AudioDeviceType::Input);
    assert_eq!(list[0].id, "hw:CARD=PCH,DEV=0");
    assert!(list[0].default);
    assert!(list[0].is_physical);
    assert_eq!(list[0].configs, vec![cfg(6, 44_100, 48_000), cfg(2, 44_100, 48_000)]);
    assert_eq!(list[1].name, "HDMI Output");
    assert_eq!(list[1].kind, AudioDeviceType::Output);
    assert!(!list[1].default);
    assert!(list[1].configs.is_empty());
}

#[test]
fn audio_list_prefers_hardware_endpoint_id() {
    let inputs = vec![AudioEndpointReport {
        name: "USB Mic".to_string(),
        id: Some("sysdefault:CARD=Mic".to_string()),
        kind: AudioDeviceType::Input,
        configs: vec![],
    }];
    let outputs = vec![AudioEndpointReport {
        name: "USB Mic".to_string(),
        id: Some("hw:CARD=Mic,DEV=0".to_string()),
        kind: AudioDeviceType::Output,
        configs: vec![],
    }];
    let list = audio_list(&inputs, &None, &outputs, &None);
    assert_eq!(list.len(), 1);
    assert_eq!(list[0].id, "hw:CARD=Mic,DEV=0");
    assert_eq!(list[0].kind, AudioDeviceType::Input);
}

#[test]
fn monitors_from_marks_single_display_primary() {
    let one = DevicesList::monitors_from(vec![DisplayReport {
        name: "eDP-1".to_string(),
        width: 1920,
        height: 1080,
        is_primary: false,
        x: 0,
        y: 0,
    }]);
    assert_eq!(one.len(), 1);
    assert!(one[0].primary);
    assert_eq!(one[0].refresh_rate, None);

    let two = DevicesList::monitors_from(vec![
        DisplayReport { name: "A".to_string(), width: 1, height: 2, is_primary: false, x: -5, y: 3 },
        DisplayReport { name: "B".to_string(), width: 3, height: 4, is_primary: true, x: 1, y: 0 },
    ]);
    assert!(!two[0].primary);
    assert!(two[1].primary);
    assert_eq!(two[0].x, -5);
}

#[test]
fn devices_display_text_matches_report() {
    let (inputs, outputs) = audio_reports();
    let list = DevicesList {
        monitors: vec![
            MonitorInfo {
                name: "eDP-1".to_string(),
                width: 1920,
                height: 1080,
                refresh_rate: Some(60),
                primary: true,
                x: 0,
                y: 0,
            },
            MonitorInfo {
                name: "HDMI-1".to_string(),
                width: 2560,
                height: 1440,
                refresh_rate: None,
                primary: false,
                x: -1920,
                y: 0,
            },
        ],
        audio: audio_list(&inputs, &None, &outputs, &Some("front:CARD=PCH,DEV=0".to_string())),
        cameras: vec![CameraInfo { name: "Integrated Camera".to_string() }],
        usb: usb_list(usb_reports()),
    };
    let want = [
        "\n=== MONITORS ===\n",
        "eDP-1\n",
        "  Resolution : 1920x1080\n",
        "  Refresh    : 60 Hz\n",
        "  Position   : 0x0\n",
        "  Primary    : Yes\n",
        "\n",
        "HDMI-1\n",
        "  Resolution : 2560x1440\n",
        "  Position   : -1920x0\n",
        "  Primary    : No\n",
        "\n=== AUDIO DEVICES ===\n",
        "Built-in Audio Analog Stereo\n",
        "  Card      : None\n",
        "  Input     : Built-in Audio Analog Stereo\n",
        "  Endpoints :\n",
        "  • Built-in Audio Analog Stereo\n",
        "      Id          : hw:CARD=PCH,DEV=0\n",
        "      Type        : Input\n",
        "      Configs     : 6 ch 44.1 kHz - 48 kHz, 2 ch 44.1 kHz - 48 kHz\n",
        "      Default     : Yes\n",
        "\n",
        "HDMI Output\n",
        "  Card      : None\n",
        "  Type      : GPU Audio (HDMI)\n",
        "  HDMI      : HDMI Output\n",
        "  Output    : HDMI Output\n",
        "  Endpoints :\n",
        "  • HDMI Output\n",
        "      Id          : hdmi:CARD=NVidia,DEV=0\n",
        "      Type        : Output\n",
        "      Default     : No\n",
        "\n=== CAMERAS ===\n",
        "Camera 1\n",
        "  Name : Integrated Camera\n",
        "\n=== USB DEVICES ===\n",
        "Arduino Uno\n",
        "  Manufacturer : Arduino LLC\n",
        "  Types        : Serial, Arduino\n",
        "  Interfaces   : CdcAcm\n",
        "  VID:PID      : 2341:0043\n",
        "  Bus          : 1\n",
        "  Port         : 3\n",
        "\n",
        "USB Receiver\n",
        "  Manufacturer : Logitech\n",
        "  Types        : Receiver\n",
        "  Interfaces   : Hid\n",
        "  VID:PID      : 046d:c52b\n",
        "  Bus          : 1\n",
        "  Port         : 2\n",
        "\n",
        "USB 1234:abcd\n",
        "  Serial       : XYZ\n",
        "  Types        : VendorSpecific\n",
        "  Interfaces   : VendorSpecific\n",
        "  VID:PID      : 1234:abcd\n",
        "  Bus          : 2\n",
        "  Port         : 1\n",
    ]
    .concat();
    assert_eq!(list.display_text(), want);
}

#[test]
fn empty_devices_show_nothing() {
    let list = DevicesList { monitors: vec![], audio: vec![], cameras: vec![], usb: vec![] };
    assert_eq!(list.display_text(), "");
}

#[test]
fn from_reports_builds_every_part() {
    let (inputs, outputs) = audio_reports();
    let list = DevicesList::from_reports(
        vec![DisplayReport { name: "X".to_string(), width: 800, height: 600, is_primary: false, x: 0, y: 0 }],
        &inputs,
        &None,
        &outputs,
        &None,
        vec!["Cam A".to_string(), "Cam B".to_string()],
        usb_reports(),
    );
    assert_eq!(list.monitors.len(), 1);
    assert!(list.monitors[0].primary);
    assert_eq!(list.audio.len(), 2);
    assert!(!list.audio[0].default);
    assert_eq!(list.cameras.len(), 2);
    assert_eq!(list.cameras[1].name, "Cam B");
    assert_eq!(list.usb.len(), 3);
}

#[test]
fn audio_list_has_one_entry_per_device_key() {
    let (inputs, outputs) = audio_reports();
    let list = audio_list(&inputs, &None, &outputs, &None);
    for a in 0..list.len() {
        for b in (a + 1)..list.len() {
            assert_ne!(device_group_key(&list[a].name), device_group_key(&list[b].name));
        }
    }
    assert_eq!(device_group_key("Built-in Audio Analog Stereo"), device_group_key("Built-in  Audio Analog Stereo Output"));
}

#[test]
fn arduino_is_not_listed_as_composite() {
    let list = usb_list(vec![UsbDescriptor {
        vendor_id: 0x2341,
        product_id: 0x8036,
        class_code: 0xef,
        sub_class_code: 2,
        protocol_code: 1,
        manufacturer: Some("Arduino LLC".to_string()),
        product: Some("Arduino Leonardo".to_string()),
        serial_number: None,
        interfaces: vec![iface(0x02), iface(0x0a), iface(0x03)],
        bus: 1,
        port: 5,
    }]);
    assert_eq!(list[0].device_types, vec![UsbDeviceType::Arduino, UsbDeviceType::Serial]);
    assert_eq!(list[0].interface_types, vec![UsbInterfaceType::Hid, UsbInterfaceType::CdcAcm]);
}

fn device(id: &str, name: &str, kind: AudioDeviceType, default: bool, configs: Vec<AudioConfigInfo>) -> AudioDeviceInfo {
    AudioDeviceInfo { id: id.to_string(), name: name.to_string(), kind, default, is_physical: true, configs }
}

#[test]
fn audio_groups_by_card_and_prefers_first_hdmi_port() {
    let list = DevicesList {
        monitors: vec![],
        audio: vec![
            device("card=1,dev=0", "Mic", AudioDeviceType::Input, false, vec![cfg(2, 48_000, 48_000)]),
            device("hdmi:CARD=NVidia,DEV=1", "HDMI 1", AudioDeviceType::Output, false, vec![cfg(2, 48_000, 48_000)]),
            device("hdmi:CARD=NVidia,DEV=0", "HDMI 0 Output", AudioDeviceType::Output, false, vec![cfg(2, 48_000, 48_000)]),
            device("CARD=1,DEV=3", "Speaker", AudioDeviceType::Output, true, vec![]),
        ],
        cameras: vec![],
        usb: vec![],
    };
    let want = [
        "\n=== AUDIO DEVICES ===\n",
        "HDMI 1\n",
        "  Card      : None\n",
        "  Type      : GPU Audio (HDMI)\n",
        "  HDMI      : HDMI 0 Output\n",
        "  Output    : HDMI 1\n",
        "  Endpoints :\n",
        "  • HDMI 1\n",
        "      Id          : hdmi:CARD=NVidia,DEV=1\n",
        "      Type        : Output\n",
        "      Configs     : 2 ch 48 kHz\n",
        "      Default     : No\n",
        "  • HDMI 0 Output\n",
        "      Id          : hdmi:CARD=NVidia,DEV=0\n",
        "      Type        : Output\n",
        "      Configs     : 2 ch 48 kHz\n",
        "      Default     : No\n",
        "\n",
        "Mic\n",
        "  Card      : 1\n",
        "  Input     : Mic\n",
        "  Output    : Speaker\n",
        "  Endpoints :\n",
        "  • Mic\n",
        "      Id          : card=1,dev=0\n",
        "      Type        : Input\n",
        "      Configs     : 2 ch 48 kHz\n",
        "      Default     : No\n",
        "  • Speaker\n",
        "      Id          : CARD=1,DEV=3\n",
        "      Type        : Output\n",
        "      Default     : Yes\n",
    ]
    .concat();
    assert_eq!(list.display_text(), want);
}

#[test]
fn each_audio_device_is_shown_once_in_the_groups() {
    let devs = vec![
        device("card=1,dev=0", "Mic", AudioDeviceType::Input, false, vec![]),
        device("hdmi:CARD=NVidia,DEV=1", "HDMI 1", AudioDeviceType::Output, false, vec![]),
        device("hdmi:CARD=NVidia,DEV=0", "HDMI 0 Output", AudioDeviceType::Output, false, vec![]),
        device("CARD=1,DEV=3", "Speaker", AudioDeviceType::Output, true, vec![]),
        device("usb-mic", "USB Mic", AudioDeviceType::Input, false, vec![]),
    ];
    let groups = group_devices(&devs);
    let total: usize = groups.iter().map(|g| g.inputs.len() + g.outputs.len()).sum();
    assert_eq!(total, devs.len());
    for d in &devs {
        let shown = groups
            .iter()
            .filter(|g| {
                let eps = if d.kind == AudioDeviceType::Input { &g.inputs } else { &g.outputs };
                eps.iter().any(|e| e.id == d.id && e.name == d.name)
            })
            .count();
        assert_eq!(shown, 1, "{}", d.id);
    }
}

#[test]
fn each_audio_device_is_listed_once_in_the_text() {
    let list = DevicesList {
        monitors: vec![],
        audio: vec![
            device("card=1,dev=0", "Mic", AudioDeviceType::Input, false, vec![]),
            device("hdmi:CARD=NVidia,DEV=1", "HDMI 1", AudioDeviceType::Output, false, vec![]),
            device("hdmi:CARD=NVidia,DEV=0", "HDMI 0 Output", AudioDeviceType::Output, false, vec![]),
            device("CARD=1,DEV=3", "Speaker", AudioDeviceType::Output, true, vec![]),
            device("usb-mic", "USB Mic", AudioDeviceType::Input, false, vec![]),
        ],
        cameras: vec![],
        usb: vec![],
    };
    let text = list.display_text();
    for d in &list.audio {
        let lines = format!("  • {}\n      Id          : {}\n", d.name, d.id);
        assert_eq!(text.matches(&lines).count(), 1, "{}", d.id);
    }
    assert_eq!(text.matches("\n  • ").count(), list.audio.len());
}
