//! The text that shows a devices snapshot.
use vstd::prelude::*;
use crate::fixed::{fixed_text, push_fixed, quotient_digits, quotient_digits_exec};
use crate::sort::{Ranked, lex_lt, lex_less, lemma_lex_irreflexive, lemma_lex_total, lemma_lex_transitive, sorted_spec, stable_sort, stably_sorted, lemma_sorted_keeps};
use crate::text::{lemma_infix_of_concat, lemma_part_in_concat_all, lemma_part_in_join, lemma_prefix_is_infix, occurs_at, chars_of, concat_all, contains_chars, decimal, has_infix, has_prefix, join_with, lowercase, push_all, push_decimal, push_joined, push_signed, push_str, push_yes_no, signed_decimal, starts_with_chars, str_contains, string_of, string_views, to_lower, yes_no};
use super::{CameraInfo, DevicesList, MonitorInfo};
use super::audio::{AudioConfigInfo, AudioDeviceInfo, AudioDeviceType};
use super::groups::{AudioDeviceGroup, AudioEndpoint, endpoint_of, endpoint_total, group_devices, groups_of, law_each_audio_device_shown_once, shows};
use super::usb::{UsbDeviceInfo, UsbDeviceType, UsbInterfaceType};

verus! {

/// The text for a sample rate in Hz: MHz with two decimals from 1 MHz on,
/// kHz from 1 kHz on (whole when the rate is a whole number of kHz, else
/// with one decimal), else whole Hz; the quotients are those of `f64`.
pub open spec fn sample_rate_text(rate: u32) -> Seq<char> {
    if rate >= 1_000_000 {
        fixed_text(quotient_digits(rate as nat, 1_000_000, 2, 52), 2) + " MHz"@
    } else if rate >= 1_000 {
        if rate % 1000 == 0 {
            fixed_text(quotient_digits(rate as nat, 1000, 0, 52), 0) + " kHz"@
        } else {
            fixed_text(quotient_digits(rate as nat, 1000, 1, 52), 1) + " kHz"@
        }
    } else {
        decimal(rate as nat) + " Hz"@
    }
}

/// Appends the text for a sample rate.
pub fn push_sample_rate(s: &mut String, rate: u32)
    ensures
        final(s)@ == old(s)@ + sample_rate_text(rate),
{
    if rate >= 1_000_000 {
        push_fixed(s, quotient_digits_exec(rate as u128, 1_000_000, 2, 52), 2);
        push_str(s, " MHz");
    } else if rate >= 1_000 {
        if rate % 1000 == 0 {
            push_fixed(s, quotient_digits_exec(rate as u128, 1000, 0, 52), 0);
        } else {
            push_fixed(s, quotient_digits_exec(rate as u128, 1000, 1, 52), 1);
        }
        push_str(s, " kHz");
    } else {
        push_decimal(s, rate as u128);
        push_str(s, " Hz");
    }
    proof {
        assert(final(s)@ =~= old(s)@ + sample_rate_text(rate));
    }
}

/// The text for a sample rate in Hz.
pub fn format_sample_rate(rate: u32) -> (r: String)
    ensures
        r@ == sample_rate_text(rate),
{
    let mut r = String::new();
    push_sample_rate(&mut r, rate);
    assert(r@ =~= sample_rate_text(rate));
    r
}

// ---------------------------------------------------------------- monitors

/// The lines for one monitor.
pub open spec fn monitor_block(m: MonitorInfo) -> Seq<char> {
    m.name@ + "\n"@ + "  Resolution : "@ + decimal(m.width as nat) + "x"@ + decimal(
        m.height as nat,
    ) + "\n"@ + (match m.refresh_rate {
        Some(rr) => "  Refresh    : "@ + decimal(rr as nat) + " Hz\n"@,
        None => Seq::empty(),
    }) + "  Position   : "@ + signed_decimal(m.x as int) + "x"@ + signed_decimal(m.y as int)
        + "\n"@ + "  Primary    : "@ + yes_no(m.primary) + "\n"@
}

fn monitor_text(m: &MonitorInfo) -> (r: String)
    ensures
        r@ == monitor_block(*m),
{
    let mut s = String::new();
    push_str(&mut s, m.name.as_str());
    push_str(&mut s, "\n");
    push_str(&mut s, "  Resolution : ");
    push_decimal(&mut s, m.width as u128);
    push_str(&mut s, "x");
    push_decimal(&mut s, m.height as u128);
    push_str(&mut s, "\n");
    let ghost before_rr = s@;
    match m.refresh_rate {
        Some(rr) => {
            push_str(&mut s, "  Refresh    : ");
            push_decimal(&mut s, rr as u128);
            push_str(&mut s, " Hz\n");
        },
        None => {},
    }
    push_str(&mut s, "  Position   : ");
    push_signed(&mut s, m.x);
    push_str(&mut s, "x");
    push_signed(&mut s, m.y);
    push_str(&mut s, "\n");
    push_str(&mut s, "  Primary    : ");
    push_yes_no(&mut s, m.primary);
    push_str(&mut s, "\n");
    assert(s@ =~= monitor_block(*m));
    s
}

/// The monitors section: a heading, then each monitor, separated by blank
/// lines; nothing when there are no monitors.
pub open spec fn monitors_section(ms: Seq<MonitorInfo>) -> Seq<char> {
    if ms.len() == 0 {
        Seq::empty()
    } else {
        "\n"@ + "=== MONITORS ===\n"@ + join_with(
            ms.map_values(|m: MonitorInfo| monitor_block(m)),
            "\n"@,
        )
    }
}

// ----------------------------------------------------------------- cameras

/// The lines for the camera at `index` (counted from 0).
pub open spec fn camera_block(index: nat, c: CameraInfo) -> Seq<char> {
    "Camera "@ + decimal(index + 1) + "\n"@ + "  Name : "@ + c.name@ + "\n"@
}

fn camera_text(index: usize, c: &CameraInfo) -> (r: String)
    requires
        index < usize::MAX,
    ensures
        r@ == camera_block(index as nat, *c),
{
    let mut s = String::new();
    push_str(&mut s, "Camera ");
    push_decimal(&mut s, (index + 1) as u128);
    push_str(&mut s, "\n");
    push_str(&mut s, "  Name : ");
    push_str(&mut s, c.name.as_str());
    push_str(&mut s, "\n");
    assert(s@ =~= camera_block(index as nat, *c));
    s
}

/// The cameras section.
pub open spec fn cameras_section(cs: Seq<CameraInfo>) -> Seq<char> {
    if cs.len() == 0 {
        Seq::empty()
    } else {
        "\n"@ + "=== CAMERAS ===\n"@ + join_with(
            Seq::new(cs.len(), |i: int| camera_block(i as nat, cs[i])),
            "\n"@,
        )
    }
}

// --------------------------------------------------------------------- usb

pub open spec fn device_type_name(t: UsbDeviceType) -> Seq<char> {
    match t {
        UsbDeviceType::Storage => "Storage"@,
        UsbDeviceType::Audio => "Audio"@,
        UsbDeviceType::Camera => "Camera"@,
        UsbDeviceType::Network => "Network"@,
        UsbDeviceType::Hub => "Hub"@,
        UsbDeviceType::Bluetooth => "Bluetooth"@,
        UsbDeviceType::Serial => "Serial"@,
        UsbDeviceType::Arduino => "Arduino"@,
        UsbDeviceType::XboxController => "XboxController"@,
        UsbDeviceType::GameController => "GameController"@,
        UsbDeviceType::Composite => "Composite"@,
        UsbDeviceType::VendorSpecific => "VendorSpecific"@,
        UsbDeviceType::Receiver => "Receiver"@,
        UsbDeviceType::Unknown => "Unknown"@,
    }
}

pub open spec fn interface_type_name(t: UsbInterfaceType) -> Seq<char> {
    match t {
        UsbInterfaceType::Hid => "Hid"@,
        UsbInterfaceType::Audio => "Audio"@,
        UsbInterfaceType::Video => "Video"@,
        UsbInterfaceType::CdcAcm => "CdcAcm"@,
        UsbInterfaceType::Storage => "Storage"@,
        UsbInterfaceType::Hub => "Hub"@,
        UsbInterfaceType::Bluetooth => "Bluetooth"@,
        UsbInterfaceType::Composite => "Composite"@,
        UsbInterfaceType::VendorSpecific => "VendorSpecific"@,
        UsbInterfaceType::Unknown => "Unknown"@,
    }
}

fn device_type_text(t: UsbDeviceType) -> (r: String)
    ensures
        r@ == device_type_name(t),
{
    String::from_str(
        match t {
            UsbDeviceType::Storage => "Storage",
            UsbDeviceType::Audio => "Audio",
            UsbDeviceType::Camera => "Camera",
            UsbDeviceType::Network => "Network",
            UsbDeviceType::Hub => "Hub",
            UsbDeviceType::Bluetooth => "Bluetooth",
            UsbDeviceType::Serial => "Serial",
            UsbDeviceType::Arduino => "Arduino",
            UsbDeviceType::XboxController => "XboxController",
            UsbDeviceType::GameController => "GameController",
            UsbDeviceType::Composite => "Composite",
            UsbDeviceType::VendorSpecific => "VendorSpecific",
            UsbDeviceType::Receiver => "Receiver",
            UsbDeviceType::Unknown => "Unknown",
        },
    )
}

fn interface_type_text(t: UsbInterfaceType) -> (r: String)
    ensures
        r@ == interface_type_name(t),
{
    String::from_str(
        match t {
            UsbInterfaceType::Hid => "Hid",
            UsbInterfaceType::Audio => "Audio",
            UsbInterfaceType::Video => "Video",
            UsbInterfaceType::CdcAcm => "CdcAcm",
            UsbInterfaceType::Storage => "Storage",
            UsbInterfaceType::Hub => "Hub",
            UsbInterfaceType::Bluetooth => "Bluetooth",
            UsbInterfaceType::Composite => "Composite",
            UsbInterfaceType::VendorSpecific => "VendorSpecific",
            UsbInterfaceType::Unknown => "Unknown",
        },
    )
}

/// The first lines for a USB device: its product (or name), manufacturer
/// and serial number.
pub open spec fn usb_head(u: UsbDeviceInfo) -> Seq<char> {
    (match u.product {
        Some(p) => p@,
        None => u.name@,
    }) + "\n"@ + (match u.manufacturer {
        Some(m) => "  Manufacturer : "@ + m@ + "\n"@,
        None => Seq::empty(),
    }) + (match u.serial_number {
        Some(sn) => "  Serial       : "@ + sn@ + "\n"@,
        None => Seq::empty(),
    })
}

/// The line of device types, if there are any.
pub open spec fn usb_types_line(u: UsbDeviceInfo) -> Seq<char> {
    if u.device_types@.len() > 0 {
        "  Types        : "@ + join_with(
            u.device_types@.map_values(|t: UsbDeviceType| device_type_name(t)),
            ", "@,
        ) + "\n"@
    } else {
        Seq::empty()
    }
}

/// The line of interface types, if there are any.
pub open spec fn usb_interfaces_line(u: UsbDeviceInfo) -> Seq<char> {
    if u.interface_types@.len() > 0 {
        "  Interfaces   : "@ + join_with(
            u.interface_types@.map_values(|t: UsbInterfaceType| interface_type_name(t)),
            ", "@,
        ) + "\n"@
    } else {
        Seq::empty()
    }
}

/// The last lines for a USB device: ids, bus and port.
pub open spec fn usb_tail(u: UsbDeviceInfo) -> Seq<char> {
    "  VID:PID      : "@ + u.vendor_id@ + ":"@ + u.product_id@ + "\n"@ + "  Bus          : "@
        + decimal(u.bus as nat) + "\n"@ + "  Port         : "@ + decimal(u.port as nat) + "\n"@
}

/// The lines for one USB device.
pub open spec fn usb_block(u: UsbDeviceInfo) -> Seq<char> {
    usb_head(u) + usb_types_line(u) + usb_interfaces_line(u) + usb_tail(u)
}

fn type_names(types: &Vec<UsbDeviceType>) -> (r: Vec<String>)
    ensures
        string_views(r@) == types@.map_values(|t: UsbDeviceType| device_type_name(t)),
{
    let mut names: Vec<String> = Vec::new();
    let mut i: usize = 0;
    while i < types.len()
        invariant
            i <= types@.len(),
            names@.len() == i,
            forall|j: int| 0 <= j < i ==> #[trigger] names@[j]@ == device_type_name(types@[j]),
        decreases types@.len() - i,
    {
        names.push(device_type_text(types[i]));
        i += 1;
    }
    assert(string_views(names@) =~= types@.map_values(|t: UsbDeviceType| device_type_name(t)));
    names
}

fn interface_names(types: &Vec<UsbInterfaceType>) -> (r: Vec<String>)
    ensures
        string_views(r@) == types@.map_values(|t: UsbInterfaceType| interface_type_name(t)),
{
    let mut names: Vec<String> = Vec::new();
    let mut i: usize = 0;
    while i < types.len()
        invariant
            i <= types@.len(),
            names@.len() == i,
            forall|j: int| 0 <= j < i ==> #[trigger] names@[j]@ == interface_type_name(types@[j]),
        decreases types@.len() - i,
    {
        names.push(interface_type_text(types[i]));
        i += 1;
    }
    assert(string_views(names@) =~= types@.map_values(
        |t: UsbInterfaceType| interface_type_name(t),
    ));
    names
}

fn push_usb_head(s: &mut String, u: &UsbDeviceInfo)
    ensures
        final(s)@ == old(s)@ + usb_head(*u),
{
    match &u.product {
        Some(p) => push_str(s, p.as_str()),
        None => push_str(s, u.name.as_str()),
    }
    push_str(s, "\n");
    match &u.manufacturer {
        Some(m) => {
            push_str(s, "  Manufacturer : ");
            push_str(s, m.as_str());
            push_str(s, "\n");
        },
        None => {},
    }
    match &u.serial_number {
        Some(sn) => {
            push_str(s, "  Serial       : ");
            push_str(s, sn.as_str());
            push_str(s, "\n");
        },
        None => {},
    }
    proof {
        assert(final(s)@ =~= old(s)@ + usb_head(*u));
    }
}

fn push_usb_lists(s: &mut String, u: &UsbDeviceInfo)
    ensures
        final(s)@ == old(s)@ + usb_types_line(*u) + usb_interfaces_line(*u),
{
    let ghost start = s@;
    if u.device_types.len() > 0 {
        let names = type_names(&u.device_types);
        push_str(s, "  Types        : ");
        push_joined(s, &names, ", ");
        push_str(s, "\n");
    }
    assert(s@ =~= start + usb_types_line(*u));
    let ghost mid = s@;
    if u.interface_types.len() > 0 {
        let names = interface_names(&u.interface_types);
        push_str(s, "  Interfaces   : ");
        push_joined(s, &names, ", ");
        push_str(s, "\n");
    }
    assert(s@ =~= mid + usb_interfaces_line(*u));
}

fn push_usb_tail(s: &mut String, u: &UsbDeviceInfo)
    ensures
        final(s)@ == old(s)@ + usb_tail(*u),
{
    push_str(s, "  VID:PID      : ");
    push_str(s, u.vendor_id.as_str());
    push_str(s, ":");
    push_str(s, u.product_id.as_str());
    push_str(s, "\n");
    push_str(s, "  Bus          : ");
    push_decimal(s, u.bus as u128);
    push_str(s, "\n");
    push_str(s, "  Port         : ");
    push_decimal(s, u.port as u128);
    push_str(s, "\n");
    proof {
        assert(final(s)@ =~= old(s)@ + usb_tail(*u));
    }
}

fn usb_text(u: &UsbDeviceInfo) -> (r: String)
    ensures
        r@ == usb_block(*u),
{
    let mut s = String::new();
    push_usb_head(&mut s, u);
    push_usb_lists(&mut s, u);
    push_usb_tail(&mut s, u);
    assert(s@ =~= usb_block(*u));
    s
}

/// The USB section.
pub open spec fn usb_section(us: Seq<UsbDeviceInfo>) -> Seq<char> {
    if us.len() == 0 {
        Seq::empty()
    } else {
        "\n"@ + "=== USB DEVICES ===\n"@ + join_with(
            us.map_values(|u: UsbDeviceInfo| usb_block(u)),
            "\n"@,
        )
    }
}


fn usb_section_text(us: &Vec<UsbDeviceInfo>) -> (r: String)
    ensures
        r@ == usb_section(us@),
{
    let mut s = String::new();
    if us.len() == 0 {
        return s;
    }
    let mut blocks: Vec<String> = Vec::new();
    let mut i: usize = 0;
    while i < us.len()
        invariant
            i <= us@.len(),
            blocks@.len() == i,
            forall|j: int| 0 <= j < i ==> #[trigger] blocks@[j]@ == usb_block(us@[j]),
        decreases us@.len() - i,
    {
        blocks.push(usb_text(&us[i]));
        i += 1;
    }
    assert(string_views(blocks@) =~= us@.map_values(|u: UsbDeviceInfo| usb_block(u)));
    push_str(&mut s, "\n");
    push_str(&mut s, "=== USB DEVICES ===\n");
    push_joined(&mut s, &blocks, "\n");
    assert(s@ =~= usb_section(us@));
    s
}

fn monitors_section_text(ms: &Vec<MonitorInfo>) -> (r: String)
    ensures
        r@ == monitors_section(ms@),
{
    let mut s = String::new();
    if ms.len() == 0 {
        return s;
    }
    let mut blocks: Vec<String> = Vec::new();
    let mut i: usize = 0;
    while i < ms.len()
        invariant
            i <= ms@.len(),
            blocks@.len() == i,
            forall|j: int| 0 <= j < i ==> #[trigger] blocks@[j]@ == monitor_block(ms@[j]),
        decreases ms@.len() - i,
    {
        blocks.push(monitor_text(&ms[i]));
        i += 1;
    }
    assert(string_views(blocks@) =~= ms@.map_values(|m: MonitorInfo| monitor_block(m)));
    push_str(&mut s, "\n");
    push_str(&mut s, "=== MONITORS ===\n");
    push_joined(&mut s, &blocks, "\n");
    assert(s@ =~= monitors_section(ms@));
    s
}

fn cameras_section_text(cs: &Vec<CameraInfo>) -> (r: String)
    ensures
        r@ == cameras_section(cs@),
{
    let mut s = String::new();
    if cs.len() == 0 {
        return s;
    }
    let mut blocks: Vec<String> = Vec::new();
    let mut i: usize = 0;
    while i < cs.len()
        invariant
            i <= cs@.len(),
            blocks@.len() == i,
            forall|j: int| 0 <= j < i ==> #[trigger] blocks@[j]@ == camera_block(j as nat, cs@[j]),
        decreases cs@.len() - i,
    {
        blocks.push(camera_text(i, &cs[i]));
        i += 1;
    }
    assert(string_views(blocks@) =~= Seq::new(cs@.len(), |i: int| camera_block(i as nat, cs@[i])));
    push_str(&mut s, "\n");
    push_str(&mut s, "=== CAMERAS ===\n");
    push_joined(&mut s, &blocks, "\n");
    assert(s@ =~= cameras_section(cs@));
    s
}

// ------------------------------------------------------------------- audio

/// The most channels among an endpoint's configurations, 0 without any.
pub open spec fn max_channels(cs: Seq<AudioConfigInfo>) -> u16
    decreases cs.len(),
{
    if cs.len() == 0 {
        0
    } else {
        let m = max_channels(cs.drop_last());
        if cs.last().channels > m {
            cs.last().channels
        } else {
            m
        }
    }
}

fn endpoint_channels(e: &AudioEndpoint) -> (r: u16)
    ensures
        r == max_channels(e.configs@),
{
    let mut m: u16 = 0;
    let mut i: usize = 0;
    while i < e.configs.len()
        invariant
            i <= e.configs@.len(),
            m == max_channels(e.configs@.subrange(0, i as int)),
        decreases e.configs@.len() - i,
    {
        assert(e.configs@.subrange(0, i + 1).drop_last() =~= e.configs@.subrange(0, i as int));
        if e.configs[i].channels > m {
            m = e.configs[i].channels;
        }
        i += 1;
    }
    assert(e.configs@.subrange(0, e.configs@.len() as int) =~= e.configs@);
    m
}

/// `a` is a better pick than `b`: default first, then more channels.
pub open spec fn better_pick(a: AudioEndpoint, b: AudioEndpoint) -> bool {
    (a.default && !b.default) || (a.default == b.default && max_channels(a.configs@) > max_channels(
        b.configs@,
    ))
}

/// The index of the endpoint shown as the group's input or output: the
/// first of the best picks (what a stable sort by default, then channels,
/// puts first); -1 when there is none.
pub open spec fn best_index(v: Seq<AudioEndpoint>) -> int
    decreases v.len(),
{
    if v.len() == 0 {
        -1
    } else {
        let b = best_index(v.drop_last());
        if b < 0 || better_pick(v.last(), v[b]) {
            v.len() - 1
        } else {
            b
        }
    }
}

/// Whether an endpoint's lowercased name mentions `hdmi`.
pub open spec fn hdmi_named(e: AudioEndpoint) -> bool {
    has_infix(lowercase(e.name@), "hdmi"@)
}

/// `a` beats `b` as the HDMI endpoint shown: default first, then a name
/// with `HDMI 0`, then more channels.
pub open spec fn better_hdmi(a: AudioEndpoint, b: AudioEndpoint) -> bool {
    let ha = has_infix(a.name@, "HDMI 0"@);
    let hb = has_infix(b.name@, "HDMI 0"@);
    (a.default && !b.default) || (a.default == b.default && ((ha && !hb) || (ha == hb
        && max_channels(a.configs@) > max_channels(b.configs@))))
}

/// The index of the HDMI endpoint shown for a GPU audio group: the first of
/// the best among the HDMI-named outputs; -1 when there is none.
pub open spec fn hdmi_index(v: Seq<AudioEndpoint>) -> int
    decreases v.len(),
{
    if v.len() == 0 {
        -1
    } else {
        let b = hdmi_index(v.drop_last());
        if !hdmi_named(v.last()) {
            b
        } else if b < 0 || better_hdmi(v.last(), v[b]) {
            v.len() - 1
        } else {
            b
        }
    }
}

proof fn lemma_best_index_range(v: Seq<AudioEndpoint>)
    ensures
        -1 <= best_index(v) < v.len(),
        v.len() > 0 ==> best_index(v) >= 0,
    decreases v.len(),
{
    if v.len() > 0 {
        lemma_best_index_range(v.drop_last());
    }
}

proof fn lemma_hdmi_index_range(v: Seq<AudioEndpoint>)
    ensures
        -1 <= hdmi_index(v) < v.len(),
    decreases v.len(),
{
    if v.len() > 0 {
        lemma_hdmi_index_range(v.drop_last());
    }
}

/// The most channels of a list of configurations is the channel count of
/// one of them and at least that of each; 0 for no configuration.
pub proof fn law_max_channels(cs: Seq<AudioConfigInfo>)
    ensures
        forall|i: int| 0 <= i < cs.len() ==> #[trigger] cs[i].channels <= max_channels(cs),
        cs.len() == 0 ==> max_channels(cs) == 0,
        cs.len() > 0 ==> exists|i: int| 0 <= i < cs.len() && #[trigger] cs[i].channels == max_channels(cs),
    decreases cs.len(),
{
    if cs.len() > 0 {
        law_max_channels(cs.drop_last());
        assert forall|i: int| 0 <= i < cs.len() implies #[trigger] cs[i].channels <= max_channels(cs) by {
            if i < cs.len() - 1 {
                assert(cs[i] == cs.drop_last()[i]);
            }
        }
        if cs.len() > 1 && max_channels(cs) != cs.last().channels {
            let i = choose|i: int| 0 <= i < cs.drop_last().len() && #[trigger] cs.drop_last()[i].channels
                == max_channels(cs.drop_last());
            assert(cs[i] == cs.drop_last()[i]);
        }
    }
}

/// The endpoint shown as a group's input or output: a default endpoint
/// whenever the group has one of that direction; among those as default as
/// it is, one with the most channels; and the first such.
pub proof fn law_best_pick(v: Seq<AudioEndpoint>)
    requires
        v.len() > 0,
    ensures
        0 <= best_index(v) < v.len(),
        (exists|k: int| 0 <= k < v.len() && #[trigger] v[k].default) ==> v[best_index(v)].default,
        forall|k: int|
            0 <= k < v.len() && #[trigger] v[k].default == v[best_index(v)].default ==> max_channels(
                v[k].configs@,
            ) <= max_channels(v[best_index(v)].configs@),
        forall|k: int|
            0 <= k < best_index(v) && #[trigger] v[k].default == v[best_index(v)].default ==> max_channels(
                v[k].configs@,
            ) < max_channels(v[best_index(v)].configs@),
    decreases v.len(),
{
    let n = v.len() - 1;
    if n > 0 {
        let p = v.drop_last();
        law_best_pick(p);
        let bp = best_index(p);
        assert(v[bp] == p[bp]);
        assert forall|k: int| 0 <= k < n implies #[trigger] v[k] == p[k] by {}
        if (exists|k: int| 0 <= k < p.len() && #[trigger] p[k].default) {
            assert(p[bp].default);
        }
        if (exists|k: int| 0 <= k < v.len() && #[trigger] v[k].default) {
            let k = choose|k: int| 0 <= k < v.len() && #[trigger] v[k].default;
            if k < n {
                assert(p[k].default);
            }
        }
    } else {
        assert(best_index(v.drop_last()) == -1);
        assert(best_index(v) == 0);
    }
}

/// The HDMI endpoint shown for a GPU audio group: there is one exactly
/// when some output's name mentions HDMI, and it is such an output; a
/// default one whenever one of those is default; among those as default as
/// it is, one named `HDMI 0` whenever there is one; and then one with the
/// most channels.
pub proof fn law_hdmi_pick(v: Seq<AudioEndpoint>)
    ensures
        -1 <= hdmi_index(v) < v.len(),
        hdmi_index(v) >= 0 <==> exists|k: int| 0 <= k < v.len() && #[trigger] hdmi_named(v[k]),
        hdmi_index(v) >= 0 ==> hdmi_named(v[hdmi_index(v)]),
        hdmi_index(v) >= 0 ==> ((exists|k: int|
            0 <= k < v.len() && #[trigger] hdmi_named(v[k]) && v[k].default) ==> v[hdmi_index(
            v,
        )].default),
        hdmi_index(v) >= 0 ==> forall|k: int|
            0 <= k < v.len() && #[trigger] hdmi_named(v[k]) && v[k].default == v[hdmi_index(
                v,
            )].default && has_infix(v[k].name@, "HDMI 0"@) ==> has_infix(
                v[hdmi_index(v)].name@,
                "HDMI 0"@,
            ),
        hdmi_index(v) >= 0 ==> forall|k: int|
            0 <= k < v.len() && #[trigger] hdmi_named(v[k]) && v[k].default == v[hdmi_index(
                v,
            )].default && has_infix(v[k].name@, "HDMI 0"@) == has_infix(
                v[hdmi_index(v)].name@,
                "HDMI 0"@,
            ) ==> max_channels(v[k].configs@) <= max_channels(v[hdmi_index(v)].configs@),
    decreases v.len(),
{
    if v.len() > 0 {
        let p = v.drop_last();
        law_hdmi_pick(p);
        assert forall|k: int| 0 <= k < p.len() implies #[trigger] v[k] == p[k] by {}
        let bp = hdmi_index(p);
        if bp >= 0 {
            assert(v[bp] == p[bp]);
        }
        if exists|k: int| 0 <= k < v.len() && #[trigger] hdmi_named(v[k]) {
            let k = choose|k: int| 0 <= k < v.len() && #[trigger] hdmi_named(v[k]);
            if k < p.len() {
                assert(hdmi_named(p[k]));
            }
        }
        if exists|k: int| 0 <= k < p.len() && #[trigger] hdmi_named(p[k]) {
            let k = choose|k: int| 0 <= k < p.len() && #[trigger] hdmi_named(p[k]);
            assert(hdmi_named(v[k]));
        }
        if exists|k: int| 0 <= k < v.len() && #[trigger] hdmi_named(v[k]) && v[k].default {
            let k = choose|k: int| 0 <= k < v.len() && #[trigger] hdmi_named(v[k]) && v[k].default;
            if k < p.len() {
                assert(hdmi_named(p[k]) && p[k].default);
            }
        }
    }
}

fn pick_best(v: &Vec<AudioEndpoint>) -> (r: usize)
    requires
        v@.len() > 0,
    ensures
        r as int == best_index(v@),
        r < v@.len(),
{
    let mut b: usize = 0;
    let mut bc = endpoint_channels(&v[0]);
    let mut i: usize = 1;
    assert(v@.subrange(0, 1).drop_last() =~= Seq::<AudioEndpoint>::empty());
    assert(best_index(Seq::<AudioEndpoint>::empty()) == -1);
    assert(best_index(v@.subrange(0, 1)) == 0);
    while i < v.len()
        invariant
            1 <= i <= v@.len(),
            b < i,
            b as int == best_index(v@.subrange(0, i as int)),
            bc == max_channels(v@[b as int].configs@),
        decreases v@.len() - i,
    {
        let ghost pre = v@.subrange(0, i as int);
        assert(v@.subrange(0, i + 1).drop_last() =~= pre);
        assert(pre[b as int] == v@[b as int]);
        let c = endpoint_channels(&v[i]);
        let better = (v[i].default && !v[b].default) || (v[i].default == v[b].default && c > bc);
        if better {
            b = i;
            bc = c;
        }
        i += 1;
    }
    assert(v@.subrange(0, v@.len() as int) =~= v@);
    b
}

fn pick_hdmi(v: &Vec<AudioEndpoint>) -> (r: Option<usize>)
    ensures
        match r {
            Some(i) => i as int == hdmi_index(v@) && i < v@.len(),
            None => hdmi_index(v@) == -1,
        },
{
    let mut best: Option<usize> = None;
    let mut i: usize = 0;
    while i < v.len()
        invariant
            i <= v@.len(),
            match best {
                Some(b) => b < i && b as int == hdmi_index(v@.subrange(0, i as int)),
                None => hdmi_index(v@.subrange(0, i as int)) == -1,
            },
        decreases v@.len() - i,
    {
        let ghost pre = v@.subrange(0, i as int);
        assert(v@.subrange(0, i + 1).drop_last() =~= pre);
        let lname = to_lower(v[i].name.as_str());
        if crate::text::str_contains(lname.as_str(), "hdmi") {
            match best {
                None => {
                    best = Some(i);
                },
                Some(b) => {
                    assert(pre[b as int] == v@[b as int]);
                    let ha = crate::text::str_contains(v[i].name.as_str(), "HDMI 0");
                    let hb = crate::text::str_contains(v[b].name.as_str(), "HDMI 0");
                    let ca = endpoint_channels(&v[i]);
                    let cb = endpoint_channels(&v[b]);
                    let da = v[i].default;
                    let db = v[b].default;
                    if (da && !db) || (da == db && ((ha && !hb) || (ha == hb && ca > cb))) {
                        best = Some(i);
                    }
                },
            }
        }
        i += 1;
    }
    assert(v@.subrange(0, v@.len() as int) =~= v@);
    best
}

pub open spec fn kind_name(k: AudioDeviceType) -> Seq<char> {
    match k {
        AudioDeviceType::Input => "Input"@,
        AudioDeviceType::Output => "Output"@,
    }
}

/// A configuration as shown: channels, then the rate or the rate range.
pub open spec fn config_text(c: AudioConfigInfo) -> Seq<char> {
    decimal(c.channels as nat) + " ch "@ + (if c.sample_rate_min == c.sample_rate_max {
        sample_rate_text(c.sample_rate_max)
    } else {
        sample_rate_text(c.sample_rate_min) + " - "@ + sample_rate_text(c.sample_rate_max)
    })
}

fn config_string(c: AudioConfigInfo) -> (r: String)
    ensures
        r@ == config_text(c),
{
    let mut s = String::new();
    push_decimal(&mut s, c.channels as u128);
    push_str(&mut s, " ch ");
    if c.sample_rate_min == c.sample_rate_max {
        push_sample_rate(&mut s, c.sample_rate_max);
    } else {
        push_sample_rate(&mut s, c.sample_rate_min);
        push_str(&mut s, " - ");
        push_sample_rate(&mut s, c.sample_rate_max);
    }
    assert(s@ =~= config_text(c));
    s
}

/// The lines for one endpoint of a group.
pub open spec fn endpoint_block(e: AudioEndpoint) -> Seq<char> {
    "  • "@ + e.name@ + "\n"@ + "      Id          : "@ + e.id@ + "\n"@ + "      Type        : "@
        + kind_name(e.kind) + "\n"@ + (if e.configs@.len() > 0 {
        "      Configs     : "@ + join_with(
            e.configs@.map_values(|c: AudioConfigInfo| config_text(c)),
            ", "@,
        ) + "\n"@
    } else {
        Seq::empty()
    }) + "      Default     : "@ + yes_no(e.default) + "\n"@
}

fn endpoint_text(e: &AudioEndpoint) -> (r: String)
    ensures
        r@ == endpoint_block(*e),
{
    let mut s = String::new();
    push_str(&mut s, "  • ");
    push_str(&mut s, e.name.as_str());
    push_str(&mut s, "\n");
    push_str(&mut s, "      Id          : ");
    push_str(&mut s, e.id.as_str());
    push_str(&mut s, "\n");
    push_str(&mut s, "      Type        : ");
    match e.kind {
        AudioDeviceType::Input => push_str(&mut s, "Input"),
        AudioDeviceType::Output => push_str(&mut s, "Output"),
    }
    push_str(&mut s, "\n");
    let ghost mid = s@;
    if e.configs.len() > 0 {
        let mut parts: Vec<String> = Vec::new();
        let mut i: usize = 0;
        while i < e.configs.len()
            invariant
                i <= e.configs@.len(),
                parts@.len() == i,
                forall|j: int| 0 <= j < i ==> #[trigger] parts@[j]@ == config_text(e.configs@[j]),
            decreases e.configs@.len() - i,
        {
            parts.push(config_string(e.configs[i]));
            i += 1;
        }
        assert(string_views(parts@) =~= e.configs@.map_values(
            |c: AudioConfigInfo| config_text(c),
        ));
        push_str(&mut s, "      Configs     : ");
        push_joined(&mut s, &parts, ", ");
        push_str(&mut s, "\n");
    }
    push_str(&mut s, "      Default     : ");
    push_yes_no(&mut s, e.default);
    push_str(&mut s, "\n");
    assert(s@ =~= endpoint_block(*e));
    s
}

/// The heading lines of a group: name, card, and for GPU audio the type and
/// the HDMI endpoint shown.
pub open spec fn group_head(g: AudioDeviceGroup) -> Seq<char> {
    g.name@ + "\n"@ + (match g.card_id {
        Some(c) => "  Card      : "@ + c@ + "\n"@,
        None => "  Card      : None\n"@,
    }) + (if g.is_gpu_audio {
        "  Type      : GPU Audio (HDMI)\n"@ + (if hdmi_index(g.outputs@) >= 0 {
            "  HDMI      : "@ + g.outputs@[hdmi_index(g.outputs@)].name@ + "\n"@
        } else {
            Seq::empty()
        })
    } else {
        Seq::empty()
    })
}

/// The lines naming the group's chosen input and output.
pub open spec fn group_picks(g: AudioDeviceGroup) -> Seq<char> {
    (if g.inputs@.len() > 0 {
        "  Input     : "@ + g.inputs@[best_index(g.inputs@)].name@ + "\n"@
    } else {
        Seq::empty()
    }) + (if g.outputs@.len() > 0 {
        "  Output    : "@ + g.outputs@[best_index(g.outputs@)].name@ + "\n"@
    } else {
        Seq::empty()
    })
}

/// The lines for one group: heading, picks, then every endpoint, inputs
/// first.
pub open spec fn group_block(g: AudioDeviceGroup) -> Seq<char> {
    group_head(g) + group_picks(g) + "  Endpoints :\n"@ + concat_all(
        (g.inputs@ + g.outputs@).map_values(|e: AudioEndpoint| endpoint_block(e)),
    )
}

fn push_group_head(s: &mut String, g: &AudioDeviceGroup)
    ensures
        final(s)@ == old(s)@ + group_head(*g),
{
    push_str(s, g.name.as_str());
    push_str(s, "\n");
    match &g.card_id {
        Some(c) => {
            push_str(s, "  Card      : ");
            push_str(s, c.as_str());
            push_str(s, "\n");
        },
        None => push_str(s, "  Card      : None\n"),
    }
    let ghost mid = s@;
    if g.is_gpu_audio {
        push_str(s, "  Type      : GPU Audio (HDMI)\n");
        match pick_hdmi(&g.outputs) {
            Some(h) => {
                push_str(s, "  HDMI      : ");
                push_str(s, g.outputs[h].name.as_str());
                push_str(s, "\n");
            },
            None => {},
        }
    }
    proof {
        assert(final(s)@ =~= old(s)@ + group_head(*g));
    }
}

fn push_group_picks(s: &mut String, g: &AudioDeviceGroup)
    ensures
        final(s)@ == old(s)@ + group_picks(*g),
{
    let ghost start = s@;
    if g.inputs.len() > 0 {
        let b = pick_best(&g.inputs);
        push_str(s, "  Input     : ");
        push_str(s, g.inputs[b].name.as_str());
        push_str(s, "\n");
    }
    if g.outputs.len() > 0 {
        let b = pick_best(&g.outputs);
        push_str(s, "  Output    : ");
        push_str(s, g.outputs[b].name.as_str());
        push_str(s, "\n");
    }
    proof {
        assert(final(s)@ =~= old(s)@ + group_picks(*g));
    }
}

fn group_text(g: &AudioDeviceGroup) -> (r: String)
    ensures
        r@ == group_block(*g),
{
    let mut s = String::new();
    push_group_head(&mut s, g);
    push_group_picks(&mut s, g);
    push_str(&mut s, "  Endpoints :\n");
    let ghost all = g.inputs@ + g.outputs@;
    let mut blocks: Vec<String> = Vec::new();
    let mut i: usize = 0;
    while i < g.inputs.len()
        invariant
            i <= g.inputs@.len(),
            all == g.inputs@ + g.outputs@,
            blocks@.len() == i,
            forall|j: int| 0 <= j < i ==> #[trigger] blocks@[j]@ == endpoint_block(all[j]),
        decreases g.inputs@.len() - i,
    {
        blocks.push(endpoint_text(&g.inputs[i]));
        i += 1;
    }
    let mut o: usize = 0;
    while o < g.outputs.len()
        invariant
            o <= g.outputs@.len(),
            all == g.inputs@ + g.outputs@,
            blocks@.len() == g.inputs@.len() + o,
            forall|j: int| 0 <= j < blocks@.len() ==> #[trigger] blocks@[j]@ == endpoint_block(all[j]),
        decreases g.outputs@.len() - o,
    {
        blocks.push(endpoint_text(&g.outputs[o]));
        o += 1;
    }
    assert(string_views(blocks@) =~= all.map_values(|e: AudioEndpoint| endpoint_block(e)));
    push_all(&mut s, &blocks);
    assert(s@ =~= group_block(*g));
    s
}

impl Ranked for AudioDeviceGroup {
    /// Groups are shown in order of name.
    open spec fn precedes(&self, other: &Self) -> bool {
        lex_lt(self.name@, other.name@)
    }

    proof fn precedes_irreflexive(a: &Self) {
        lemma_lex_irreflexive(a.name@);
    }

    proof fn precedes_transitive(a: &Self, b: &Self, c: &Self) {
        lemma_lex_transitive(a.name@, b.name@, c.name@);
    }

    proof fn tie_transitive(a: &Self, b: &Self, c: &Self) {
        lemma_lex_total(a.name@, b.name@);
        lemma_lex_total(b.name@, c.name@);
        lemma_lex_irreflexive(a.name@);
    }

    fn goes_before(&self, other: &Self) -> (r: bool) {
        let x = chars_of(self.name.as_str());
        let y = chars_of(other.name.as_str());
        lex_less(x.as_slice(), y.as_slice())
    }
}

/// The audio section for the grouping `groups` of the devices `devs`: a
/// heading, then the groups in order of name, separated by blank lines;
/// nothing when there are no devices.
pub open spec fn audio_section(devs: Seq<AudioDeviceInfo>, groups: Seq<AudioDeviceGroup>) -> Seq<
    char,
> {
    if devs.len() == 0 {
        Seq::empty()
    } else {
        "\n"@ + "=== AUDIO DEVICES ===\n"@ + join_with(
            sorted_spec(groups).map_values(|g: AudioDeviceGroup| group_block(g)),
            "\n"@,
        )
    }
}

fn audio_section_text(devs: &Vec<AudioDeviceInfo>) -> (r: String)
    ensures
        exists|groups: Seq<AudioDeviceGroup>| groups_of(devs@, groups) && r@ == audio_section(devs@, groups),
{
    let mut s = String::new();
    let groups = group_devices(devs);
    let ghost gv = groups@;
    if devs.len() == 0 {
        assert(s@ =~= audio_section(devs@, gv));
        return s;
    }
    let sorted = stable_sort(groups);
    let mut blocks: Vec<String> = Vec::new();
    let mut i: usize = 0;
    while i < sorted.len()
        invariant
            i <= sorted@.len(),
            blocks@.len() == i,
            forall|j: int| 0 <= j < i ==> #[trigger] blocks@[j]@ == group_block(sorted@[j]),
        decreases sorted@.len() - i,
    {
        blocks.push(group_text(&sorted[i]));
        i += 1;
    }
    assert(string_views(blocks@) =~= sorted@.map_values(|g: AudioDeviceGroup| group_block(g)));
    push_str(&mut s, "\n");
    push_str(&mut s, "=== AUDIO DEVICES ===\n");
    push_joined(&mut s, &blocks, "\n");
    assert(s@ =~= audio_section(devs@, gv));
    s
}

/// The text of a devices snapshot for the grouping `groups` of its audio
/// devices: monitors, audio devices, cameras, then USB devices.
pub open spec fn devices_text(list: DevicesList, groups: Seq<AudioDeviceGroup>) -> Seq<char> {
    monitors_section(list.monitors@) + audio_section(list.audio@, groups) + cameras_section(
        list.cameras@,
    ) + usb_section(list.usb@)
}

impl DevicesList {
    /// The text that shows the snapshot.
    pub fn display_text(&self) -> (r: String)
        ensures
            exists|groups: Seq<AudioDeviceGroup>|
                groups_of(self.audio@, groups) && r@ == devices_text(*self, groups),
    {
        let mut s = monitors_section_text(&self.monitors);
        let a = audio_section_text(&self.audio);
        let ghost groups = choose|groups: Seq<AudioDeviceGroup>|
            groups_of(self.audio@, groups) && a@ == audio_section(self.audio@, groups);
        s.append(a.as_str());
        let c = cameras_section_text(&self.cameras);
        s.append(c.as_str());
        let u = usb_section_text(&self.usb);
        s.append(u.as_str());
        assert(s@ =~= devices_text(*self, groups));
        s
    }
}

/// The bullet line that names an audio device and the line with its id.
pub open spec fn listed_device_lines(d: AudioDeviceInfo) -> Seq<char> {
    "  • "@ + d.name@ + "\n"@ + "      Id          : "@ + d.id@ + "\n"@
}

/// The block of an endpoint begins with the lines that name its device.
proof fn lemma_endpoint_block_names(d: AudioDeviceInfo, e: AudioEndpoint)
    requires
        endpoint_of(d, e),
    ensures
        has_infix(endpoint_block(e), listed_device_lines(d)),
{
    let p = listed_device_lines(d);
    let b = endpoint_block(e);
    assert(b.subrange(0, p.len() as int) =~= p);
    assert(occurs_at(b, p, 0));
    lemma_prefix_is_infix(b, p);
}

/// A group's block holds the block of each of its endpoints.
proof fn lemma_group_block_holds(g: AudioDeviceGroup, j: int)
    requires
        0 <= j < g.inputs@.len() + g.outputs@.len(),
    ensures
        has_infix(group_block(g), endpoint_block((g.inputs@ + g.outputs@)[j])),
{
    let blocks = (g.inputs@ + g.outputs@).map_values(|e: AudioEndpoint| endpoint_block(e));
    assert(blocks[j] == endpoint_block((g.inputs@ + g.outputs@)[j]));
    lemma_part_in_concat_all(blocks, j);
    lemma_infix_of_concat(group_head(g) + group_picks(g) + "  Endpoints :\n"@, concat_all(blocks), blocks[j]);
}

/// Every audio device of a snapshot is listed in its text: a bullet line
/// with its name, then a line with its id; and the groups list as many
/// endpoints as the snapshot has audio devices, so none is listed twice.
pub proof fn law_audio_devices_listed(list: DevicesList, groups: Seq<AudioDeviceGroup>)
    requires
        groups_of(list.audio@, groups),
    ensures
        endpoint_total(groups) == list.audio@.len(),
        forall|i: int|
            0 <= i < list.audio@.len() ==> has_infix(
                devices_text(list, groups),
                listed_device_lines(#[trigger] list.audio@[i]),
            ),
{
    let devs = list.audio@;
    law_each_audio_device_shown_once(devs, groups);
    assert forall|i: int| 0 <= i < devs.len() implies has_infix(
        devices_text(list, groups),
        listed_device_lines(#[trigger] devs[i]),
    ) by {
        let d = devs[i];
        let p = listed_device_lines(d);
        let gi = choose|gi: int| 0 <= gi < groups.len() && shows(groups[gi], d);
        let g = groups[gi];
        let all = g.inputs@ + g.outputs@;
        let j: int = if d.kind == AudioDeviceType::Input {
            choose|e: int| 0 <= e < g.inputs@.len() && endpoint_of(d, #[trigger] g.inputs@[e])
        } else {
            g.inputs@.len() + choose|e: int| 0 <= e < g.outputs@.len() && endpoint_of(d, #[trigger] g.outputs@[e])
        };
        assert(endpoint_of(d, all[j]));
        lemma_endpoint_block_names(d, all[j]);
        lemma_group_block_holds(g, j);
        lemma_infix_transitive(group_block(g), endpoint_block(all[j]), p);
        lemma_sorted_keeps(groups, gi);
        let sorted = sorted_spec(groups);
        let k = choose|k: int| 0 <= k < sorted.len() && #[trigger] sorted[k] == groups[gi];
        let blocks = sorted.map_values(|g: AudioDeviceGroup| group_block(g));
        assert(blocks[k] == group_block(g));
        lemma_part_in_join(blocks, "\n"@, k);
        lemma_infix_transitive(join_with(blocks, "\n"@), group_block(g), p);
        lemma_infix_of_concat("\n"@ + "=== AUDIO DEVICES ===\n"@, join_with(blocks, "\n"@), p);
        let a = audio_section(devs, groups);
        let m = monitors_section(list.monitors@);
        lemma_infix_of_concat(m, a, p);
        lemma_infix_of_concat(m + a, cameras_section(list.cameras@), p);
        lemma_infix_of_concat(m + a + cameras_section(list.cameras@), usb_section(list.usb@), p);
    }
}

/// What occurs in a text that occurs in `s` occurs in `s`.
proof fn lemma_infix_transitive(s: Seq<char>, t: Seq<char>, p: Seq<char>)
    requires
        has_infix(s, t),
        has_infix(t, p),
    ensures
        has_infix(s, p),
{
    let i = choose|i: int| occurs_at(s, t, i);
    let j = choose|j: int| occurs_at(t, p, j);
    assert(s.subrange(i + j, i + j + p.len()) =~= t.subrange(j, j + p.len()));
    assert(occurs_at(s, p, i + j));
}

} // verus!
