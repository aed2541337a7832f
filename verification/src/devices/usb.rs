//! USB devices: classification by class codes, vendor and product, and the
//! order in which the list is shown.
use vstd::prelude::*;
use crate::sort::{Ranked, arrangement, is_sorted, lemma_sorted_keeps, lex_lt, lex_less, sorted_spec, stable_sort, stably_sorted, lemma_lex_irreflexive, lemma_lex_transitive, lemma_lex_total};
use crate::text::{chars_of, contains_chars, has_infix, hex4, lowercase, push_hex4, push_str, text_or_empty, to_lower};

verus! {

/// The kind of a USB device.
#[derive(Debug, Clone, Copy, PartialEq, Eq, Structural)]
pub enum UsbDeviceType {
    Storage,
    Audio,
    Camera,
    Network,
    Hub,
    Bluetooth,
    Serial,
    Arduino,
    XboxController,
    GameController,
    Composite,
    VendorSpecific,
    Receiver,
    Unknown,
}

/// The kind of a USB interface.
#[derive(Debug, Clone, Copy, PartialEq, Eq, Structural)]
pub enum UsbInterfaceType {
    Hid,
    Audio,
    Video,
    CdcAcm,
    Storage,
    Hub,
    Bluetooth,
    Composite,
    VendorSpecific,
    Unknown,
}

/// One interface descriptor of a device's active configuration.
#[derive(Debug, Clone, Copy, PartialEq, Eq, Structural)]
pub struct UsbInterfaceDescriptor {
    pub class_code: u8,
    pub sub_class_code: u8,
    pub protocol_code: u8,
}

/// What the USB enumeration reports of one device.
#[derive(Debug, Clone)]
pub struct UsbDescriptor {
    pub vendor_id: u16,
    pub product_id: u16,
    pub class_code: u8,
    pub sub_class_code: u8,
    pub protocol_code: u8,
    pub manufacturer: Option<String>,
    pub product: Option<String>,
    pub serial_number: Option<String>,
    /// The interface descriptors of the active configuration, in order
    /// (none when that configuration could not be read).
    pub interfaces: Vec<UsbInterfaceDescriptor>,
    pub bus: u8,
    pub port: u8,
}

/// A USB device as listed.
#[derive(Debug, Clone)]
pub struct UsbDeviceInfo {
    pub name: String,
    pub manufacturer: Option<String>,
    pub product: Option<String>,
    pub serial_number: Option<String>,
    pub vendor_id: String,
    pub product_id: String,
    pub device_class: Option<u8>,
    pub device_sub_class: Option<u8>,
    pub device_protocol: Option<u8>,
    pub device_types: Vec<UsbDeviceType>,
    pub interface_types: Vec<UsbInterfaceType>,
    pub bus: u8,
    pub port: u8,
}

pub open spec fn classify_spec(class: u8) -> UsbDeviceType {
    if class == 0x01 {
        UsbDeviceType::Audio
    } else if class == 0x02 {
        UsbDeviceType::Serial
    } else if class == 0x08 {
        UsbDeviceType::Storage
    } else if class == 0x09 {
        UsbDeviceType::Hub
    } else if class == 0x0e {
        UsbDeviceType::Camera
    } else if class == 0xe0 {
        UsbDeviceType::Bluetooth
    } else if class == 0xef {
        UsbDeviceType::Composite
    } else if class == 0xff {
        UsbDeviceType::VendorSpecific
    } else {
        UsbDeviceType::Unknown
    }
}

pub open spec fn classify_interface_spec(class: u8) -> UsbInterfaceType {
    if class == 0x01 {
        UsbInterfaceType::Audio
    } else if class == 0x02 {
        UsbInterfaceType::CdcAcm
    } else if class == 0x03 {
        UsbInterfaceType::Hid
    } else if class == 0x08 {
        UsbInterfaceType::Storage
    } else if class == 0x09 {
        UsbInterfaceType::Hub
    } else if class == 0x0e {
        UsbInterfaceType::Video
    } else if class == 0xe0 {
        UsbInterfaceType::Bluetooth
    } else if class == 0xef {
        UsbInterfaceType::Composite
    } else if class == 0xff {
        UsbInterfaceType::VendorSpecific
    } else {
        UsbInterfaceType::Unknown
    }
}

pub open spec fn score_type_spec(t: UsbDeviceType) -> u8 {
    match t {
        UsbDeviceType::Arduino => 100,
        UsbDeviceType::XboxController => 100,
        UsbDeviceType::GameController => 90,
        UsbDeviceType::Storage => 80,
        UsbDeviceType::Serial => 80,
        UsbDeviceType::Audio => 70,
        UsbDeviceType::Camera => 70,
        UsbDeviceType::Bluetooth => 60,
        UsbDeviceType::Network => 60,
        UsbDeviceType::Receiver => 60,
        UsbDeviceType::Composite => 20,
        UsbDeviceType::VendorSpecific => 10,
        UsbDeviceType::Hub => 5,
        UsbDeviceType::Unknown => 0,
    }
}

pub open spec fn interface_score_spec(t: UsbInterfaceType) -> u8 {
    match t {
        UsbInterfaceType::Hid => 90,
        UsbInterfaceType::CdcAcm => 80,
        UsbInterfaceType::Audio => 70,
        UsbInterfaceType::Video => 60,
        UsbInterfaceType::Storage => 50,
        UsbInterfaceType::Bluetooth => 40,
        UsbInterfaceType::VendorSpecific => 10,
        _ => 0,
    }
}

/// The type that a vendor and product id, or failing those the lowercased
/// manufacturer and product text, point to.
pub open spec fn classify_vendor_spec(vendor_id: u16, product_id: u16, text: Seq<char>) -> Option<
    UsbDeviceType,
> {
    if vendor_id == 0x2341 {
        Some(UsbDeviceType::Arduino)
    } else if vendor_id == 0x045e {
        if product_id == 0x02d1 || product_id == 0x02dd || product_id == 0x02ea || product_id
            == 0x028e {
            Some(UsbDeviceType::XboxController)
        } else {
            Some(UsbDeviceType::GameController)
        }
    } else if vendor_id == 0x0a12 {
        Some(UsbDeviceType::Bluetooth)
    } else if vendor_id == 0x0403 || vendor_id == 0x10c4 || vendor_id == 0x067b {
        Some(UsbDeviceType::Serial)
    } else if vendor_id == 0x046d || vendor_id == 0x4842 {
        Some(UsbDeviceType::Receiver)
    } else if has_infix(text, "arduino"@) {
        Some(UsbDeviceType::Arduino)
    } else if has_infix(text, "xbox"@) {
        Some(UsbDeviceType::XboxController)
    } else if has_infix(text, "serial"@) || has_infix(text, "cdc"@) || has_infix(text, "ch340"@)
        || has_infix(text, "cp210"@) || has_infix(text, "ftdi"@) {
        Some(UsbDeviceType::Serial)
    } else if has_infix(text, "gamepad"@) || has_infix(text, "controller"@) || has_infix(
        text,
        "joystick"@,
    ) {
        Some(UsbDeviceType::GameController)
    } else {
        None
    }
}

/// The manufacturer and product joined by a space, then lowercased.
pub open spec fn vendor_text(manufacturer: Option<String>, product: Option<String>) -> Seq<char> {
    lowercase(text_or_empty(manufacturer) + " "@ + text_or_empty(product))
}

/// `acc` with `t` added at the end, unless `t` is unknown or already there.
pub open spec fn add_known_type(acc: Seq<UsbDeviceType>, t: UsbDeviceType) -> Seq<UsbDeviceType> {
    if t != UsbDeviceType::Unknown && !acc.contains(t) {
        acc.push(t)
    } else {
        acc
    }
}

/// The known types among `cands`, each once, in order of first appearance.
pub open spec fn known_types(cands: Seq<UsbDeviceType>) -> Seq<UsbDeviceType>
    decreases cands.len(),
{
    if cands.len() == 0 {
        Seq::empty()
    } else {
        add_known_type(known_types(cands.drop_last()), cands.last())
    }
}

/// The known interface types among `cands`, each once, in order of first
/// appearance.
pub open spec fn known_interfaces(cands: Seq<UsbInterfaceType>) -> Seq<UsbInterfaceType>
    decreases cands.len(),
{
    if cands.len() == 0 {
        Seq::empty()
    } else {
        let acc = known_interfaces(cands.drop_last());
        let t = cands.last();
        if t != UsbInterfaceType::Unknown && !acc.contains(t) {
            acc.push(t)
        } else {
            acc
        }
    }
}

/// `s` without the values equal to `x`.
pub open spec fn remove_type(s: Seq<UsbDeviceType>, x: UsbDeviceType) -> Seq<UsbDeviceType>
    decreases s.len(),
{
    if s.len() == 0 {
        Seq::empty()
    } else if s.last() == x {
        remove_type(s.drop_last(), x)
    } else {
        remove_type(s.drop_last(), x).push(s.last())
    }
}

/// The types read off a device, in the order they are considered: its own
/// class, what its vendor and product point to, then each interface's class.
pub open spec fn type_candidates(d: UsbDescriptor) -> Seq<UsbDeviceType> {
    let vendor = match classify_vendor_spec(
        d.vendor_id,
        d.product_id,
        vendor_text(d.manufacturer, d.product),
    ) {
        Some(t) => seq![t],
        None => Seq::empty(),
    };
    seq![classify_spec(d.class_code)] + vendor + d.interfaces@.map_values(
        |i: UsbInterfaceDescriptor| classify_spec(i.class_code),
    )
}

/// The device types: the known candidates (or `Unknown` when there are
/// none), without `VendorSpecific` for an Xbox controller and without
/// `Composite` for an Arduino.
pub open spec fn device_types_spec(d: UsbDescriptor) -> Seq<UsbDeviceType> {
    let s0 = known_types(type_candidates(d));
    let s1 = if s0.len() == 0 {
        seq![UsbDeviceType::Unknown]
    } else {
        s0
    };
    let s2 = if s1.contains(UsbDeviceType::XboxController) {
        remove_type(s1, UsbDeviceType::VendorSpecific)
    } else {
        s1
    };
    if s2.contains(UsbDeviceType::Arduino) {
        remove_type(s2, UsbDeviceType::Composite)
    } else {
        s2
    }
}

/// The interface types before ordering: the known classes of the
/// interfaces, each once, in order of first appearance.
pub open spec fn interface_candidates(d: UsbDescriptor) -> Seq<UsbInterfaceType> {
    known_interfaces(
        d.interfaces@.map_values(|i: UsbInterfaceDescriptor| classify_interface_spec(i.class_code)),
    )
}

/// The name a device is listed under: its product text, or `USB vvvv:pppp`.
pub open spec fn device_name_spec(d: UsbDescriptor) -> Seq<char> {
    match d.product {
        Some(p) => p@,
        None => "USB "@ + hex4(d.vendor_id) + ":"@ + hex4(d.product_id),
    }
}

/// The highest score among `types`, 0 when there is none.
pub open spec fn max_score(types: Seq<UsbDeviceType>) -> u8
    decreases types.len(),
{
    if types.len() == 0 {
        0
    } else {
        let m = max_score(types.drop_last());
        let s = score_type_spec(types.last());
        if s > m {
            s
        } else {
            m
        }
    }
}

impl Ranked for UsbInterfaceType {
    open spec fn precedes(&self, other: &Self) -> bool {
        interface_score_spec(*self) > interface_score_spec(*other)
    }

    proof fn precedes_irreflexive(a: &Self) {
    }

    proof fn precedes_transitive(a: &Self, b: &Self, c: &Self) {
    }

    proof fn tie_transitive(a: &Self, b: &Self, c: &Self) {
    }

    fn goes_before(&self, other: &Self) -> (r: bool) {
        interface_score(self) > interface_score(other)
    }
}

impl Ranked for UsbDeviceInfo {
    open spec fn precedes(&self, other: &Self) -> bool {
        let a = max_score(self.device_types@);
        let b = max_score(other.device_types@);
        a > b || (a == b && lex_lt(self.name@, other.name@))
    }

    proof fn precedes_irreflexive(a: &Self) {
        lemma_lex_irreflexive(a.name@);
    }

    proof fn precedes_transitive(a: &Self, b: &Self, c: &Self) {
        if max_score(a.device_types@) == max_score(b.device_types@) && max_score(b.device_types@)
            == max_score(c.device_types@) {
            lemma_lex_transitive(a.name@, b.name@, c.name@);
        }
    }

    proof fn tie_transitive(a: &Self, b: &Self, c: &Self) {
        lemma_lex_total(a.name@, b.name@);
        lemma_lex_total(b.name@, c.name@);
        lemma_lex_irreflexive(a.name@);
    }

    fn goes_before(&self, other: &Self) -> (r: bool) {
        let a = highest_score(&self.device_types);
        let b = highest_score(&other.device_types);
        if a != b {
            a > b
        } else {
            let x = chars_of(self.name.as_str());
            let y = chars_of(other.name.as_str());
            lex_less(x.as_slice(), y.as_slice())
        }
    }
}

/// The type of a device class code.
pub fn classify(class: u8) -> (r: UsbDeviceType)
    ensures
        r == classify_spec(class),
{
    match class {
        0x01 => UsbDeviceType::Audio,
        0x02 => UsbDeviceType::Serial,
        0x08 => UsbDeviceType::Storage,
        0x09 => UsbDeviceType::Hub,
        0x0e => UsbDeviceType::Camera,
        0xe0 => UsbDeviceType::Bluetooth,
        0xef => UsbDeviceType::Composite,
        0xff => UsbDeviceType::VendorSpecific,
        _ => UsbDeviceType::Unknown,
    }
}

/// The type of an interface class code (subclass and protocol do not matter).
pub fn classify_interface(class: u8, _subclass: u8, _protocol: u8) -> (r: UsbInterfaceType)
    ensures
        r == classify_interface_spec(class),
{
    match class {
        0x01 => UsbInterfaceType::Audio,
        0x02 => UsbInterfaceType::CdcAcm,
        0x03 => UsbInterfaceType::Hid,
        0x08 => UsbInterfaceType::Storage,
        0x09 => UsbInterfaceType::Hub,
        0x0e => UsbInterfaceType::Video,
        0xe0 => UsbInterfaceType::Bluetooth,
        0xef => UsbInterfaceType::Composite,
        0xff => UsbInterfaceType::VendorSpecific,
        _ => UsbInterfaceType::Unknown,
    }
}

/// How strongly a device type stands for the device, for ordering the list.
pub fn score_type(t: &UsbDeviceType) -> (r: u8)
    ensures
        r == score_type_spec(*t),
{
    match t {
        UsbDeviceType::Arduino => 100,
        UsbDeviceType::XboxController => 100,
        UsbDeviceType::GameController => 90,
        UsbDeviceType::Storage => 80,
        UsbDeviceType::Serial => 80,
        UsbDeviceType::Audio => 70,
        UsbDeviceType::Camera => 70,
        UsbDeviceType::Bluetooth => 60,
        UsbDeviceType::Network => 60,
        UsbDeviceType::Receiver => 60,
        UsbDeviceType::Composite => 20,
        UsbDeviceType::VendorSpecific => 10,
        UsbDeviceType::Hub => 5,
        UsbDeviceType::Unknown => 0,
    }
}

/// How strongly an interface type stands for the device.
pub fn interface_score(t: &UsbInterfaceType) -> (r: u8)
    ensures
        r == interface_score_spec(*t),
{
    match t {
        UsbInterfaceType::Hid => 90,
        UsbInterfaceType::CdcAcm => 80,
        UsbInterfaceType::Audio => 70,
        UsbInterfaceType::Video => 60,
        UsbInterfaceType::Storage => 50,
        UsbInterfaceType::Bluetooth => 40,
        UsbInterfaceType::VendorSpecific => 10,
        _ => 0,
    }
}

/// The highest score among `types`, 0 when there is none.
pub fn highest_score(types: &Vec<UsbDeviceType>) -> (r: u8)
    ensures
        r == max_score(types@),
{
    let mut m: u8 = 0;
    let mut i: usize = 0;
    while i < types.len()
        invariant
            i <= types@.len(),
            m == max_score(types@.subrange(0, i as int)),
        decreases types@.len() - i,
    {
        let s = score_type(&types[i]);
        assert(types@.subrange(0, i + 1).drop_last() =~= types@.subrange(0, i as int));
        if s > m {
            m = s;
        }
        i += 1;
    }
    assert(types@.subrange(0, types@.len() as int) =~= types@);
    m
}

/// The text of an optional string, empty for `None`.
fn text_of(s: &Option<String>) -> (r: &str)
    ensures
        r@ == text_or_empty(*s),
{
    match s {
        Some(t) => t.as_str(),
        None => {
            proof {
                reveal_strlit("");
            }
            ""
        },
    }
}

fn has_word(text: &Vec<char>, word: &str) -> (r: bool)
    ensures
        r == has_infix(text@, word@),
{
    let w = chars_of(word);
    contains_chars(text.as_slice(), w.as_slice())
}

/// The type that a vendor and product id, or the manufacturer and product
/// text, point to.
pub fn classify_vendor(
    vendor_id: u16,
    product_id: u16,
    manufacturer: &Option<String>,
    product: &Option<String>,
) -> (r: Option<UsbDeviceType>)
    ensures
        r == classify_vendor_spec(vendor_id, product_id, vendor_text(*manufacturer, *product)),
{
    match vendor_id {
        0x2341 => Some(UsbDeviceType::Arduino),
        0x045e => match product_id {
            0x02d1 | 0x02dd | 0x02ea | 0x028e => Some(UsbDeviceType::XboxController),
            _ => Some(UsbDeviceType::GameController),
        },
        0x0a12 => Some(UsbDeviceType::Bluetooth),
        0x0403 | 0x10c4 | 0x067b => Some(UsbDeviceType::Serial),
        0x046d | 0x4842 => Some(UsbDeviceType::Receiver),
        _ => {
            let mut joined = String::new();
            push_str(&mut joined, text_of(manufacturer));
            push_str(&mut joined, " ");
            push_str(&mut joined, text_of(product));
            let lower = to_lower(joined.as_str());
            let text = chars_of(lower.as_str());
            if has_word(&text, "arduino") {
                return Some(UsbDeviceType::Arduino);
            }
            if has_word(&text, "xbox") {
                return Some(UsbDeviceType::XboxController);
            }
            if has_word(&text, "serial") || has_word(&text, "cdc") || has_word(&text, "ch340")
                || has_word(&text, "cp210") || has_word(&text, "ftdi") {
                return Some(UsbDeviceType::Serial);
            }
            if has_word(&text, "gamepad") || has_word(&text, "controller") || has_word(
                &text,
                "joystick",
            ) {
                return Some(UsbDeviceType::GameController);
            }
            None
        },
    }
}

fn contains_type(types: &Vec<UsbDeviceType>, t: UsbDeviceType) -> (r: bool)
    ensures
        r == types@.contains(t),
{
    let mut i: usize = 0;
    while i < types.len()
        invariant
            i <= types@.len(),
            forall|j: int| 0 <= j < i ==> types@[j] != t,
        decreases types@.len() - i,
    {
        if types[i] == t {
            return true;
        }
        i += 1;
    }
    false
}

fn contains_interface(types: &Vec<UsbInterfaceType>, t: UsbInterfaceType) -> (r: bool)
    ensures
        r == types@.contains(t),
{
    let mut i: usize = 0;
    while i < types.len()
        invariant
            i <= types@.len(),
            forall|j: int| 0 <= j < i ==> types@[j] != t,
        decreases types@.len() - i,
    {
        if types[i] == t {
            return true;
        }
        i += 1;
    }
    false
}

/// Adds `t` unless it is unknown or already listed.
pub fn add_type(types: &mut Vec<UsbDeviceType>, t: UsbDeviceType)
    ensures
        final(types)@ == add_known_type(old(types)@, t),
{
    if t != UsbDeviceType::Unknown && !contains_type(types, t) {
        types.push(t);
    }
}

/// Adds `t` unless it is unknown or already listed.
pub fn add_interface(interfaces: &mut Vec<UsbInterfaceType>, t: UsbInterfaceType)
    ensures
        final(interfaces)@ == (if t != UsbInterfaceType::Unknown && !old(interfaces)@.contains(t) {
            old(interfaces)@.push(t)
        } else {
            old(interfaces)@
        }),
{
    if t != UsbInterfaceType::Unknown && !contains_interface(interfaces, t) {
        interfaces.push(t);
    }
}

fn retain_not(types: Vec<UsbDeviceType>, x: UsbDeviceType) -> (r: Vec<UsbDeviceType>)
    ensures
        r@ == remove_type(types@, x),
{
    let mut r: Vec<UsbDeviceType> = Vec::new();
    let mut i: usize = 0;
    while i < types.len()
        invariant
            i <= types@.len(),
            r@ == remove_type(types@.subrange(0, i as int), x),
        decreases types@.len() - i,
    {
        assert(types@.subrange(0, i + 1).drop_last() =~= types@.subrange(0, i as int));
        if types[i] != x {
            r.push(types[i]);
        }
        i += 1;
    }
    assert(types@.subrange(0, types@.len() as int) =~= types@);
    r
}

proof fn lemma_known_types_step(c: Seq<UsbDeviceType>, i: int)
    requires
        0 <= i < c.len(),
    ensures
        known_types(c.subrange(0, i + 1)) == add_known_type(known_types(c.subrange(0, i)), c[i]),
{
    assert(c.subrange(0, i + 1).drop_last() =~= c.subrange(0, i));
}


proof fn lemma_known_types_distinct(cands: Seq<UsbDeviceType>)
    ensures
        known_types(cands).no_duplicates(),
        !known_types(cands).contains(UsbDeviceType::Unknown),
    decreases cands.len(),
{
    if cands.len() > 0 {
        lemma_known_types_distinct(cands.drop_last());
        let acc = known_types(cands.drop_last());
        let t = cands.last();
        if t != UsbDeviceType::Unknown && !acc.contains(t) {
            assert forall|i: int, j: int|
                0 <= i < acc.push(t).len() && 0 <= j < acc.push(t).len() && i != j implies acc.push(
                t,
            )[i] != acc.push(t)[j] by {
                if i < acc.len() && j < acc.len() {
                } else if i < acc.len() {
                    assert(acc.contains(acc[i]));
                } else {
                    assert(acc.contains(acc[j]));
                }
            }
            assert forall|i: int| 0 <= i < acc.push(t).len() implies acc.push(t)[i]
                != UsbDeviceType::Unknown by {
                if i < acc.len() {
                    assert(acc.contains(acc[i]));
                }
            }
        }
    }
}

proof fn lemma_remove_type(s: Seq<UsbDeviceType>, x: UsbDeviceType)
    requires
        s.no_duplicates(),
    ensures
        remove_type(s, x).no_duplicates(),
        !remove_type(s, x).contains(x),
        forall|t: UsbDeviceType| t != x ==> (remove_type(s, x).contains(t) <==> s.contains(t)),
    decreases s.len(),
{
    if s.len() > 0 {
        let rest = s.drop_last();
        assert(rest.no_duplicates());
        lemma_remove_type(rest, x);
        let r = remove_type(rest, x);
        assert forall|t: UsbDeviceType| rest.contains(t) implies s.contains(t) by {
            let i = choose|i: int| 0 <= i < rest.len() && rest[i] == t;
            assert(s[i] == t);
        }
        assert forall|t: UsbDeviceType| s.contains(t) && t != s.last() implies rest.contains(t) by {
            let i = choose|i: int| 0 <= i < s.len() && s[i] == t;
            assert(i < s.len() - 1);
            assert(rest[i] == t);
        }
        assert(!rest.contains(s.last())) by {
            if rest.contains(s.last()) {
                let i = choose|i: int| 0 <= i < rest.len() && rest[i] == s.last();
                assert(s[i] == s[s.len() - 1]);
            }
        }
        if s.last() != x {
            let p = r.push(s.last());
            assert forall|i: int, j: int|
                0 <= i < p.len() && 0 <= j < p.len() && i != j implies p[i] != p[j] by {
                if i < r.len() && j < r.len() {
                } else if i < r.len() {
                    assert(r.contains(r[i]));
                } else {
                    assert(r.contains(r[j]));
                }
            }
            assert forall|t: UsbDeviceType| t != x implies (p.contains(t) <==> s.contains(t)) by {
                if p.contains(t) {
                    if t == s.last() {
                        assert(s[s.len() - 1] == t);
                    } else {
                        let i = choose|i: int| 0 <= i < p.len() && p[i] == t;
                        assert(i < r.len());
                        assert(r[i] == t);
                        assert(r.contains(t));
                        assert(rest.contains(t));
                    }
                }
                if s.contains(t) {
                    if t == s.last() {
                        assert(p[p.len() - 1] == t);
                    } else {
                        assert(rest.contains(t));
                        assert(r.contains(t));
                        let i = choose|i: int| 0 <= i < r.len() && r[i] == t;
                        assert(p[i] == t);
                    }
                }
            }
            assert(!p.contains(x)) by {
                if p.contains(x) {
                    let i = choose|i: int| 0 <= i < p.len() && p[i] == x;
                    if i < r.len() {
                        assert(r.contains(r[i]));
                    }
                }
            }
        }
    }
}

/// A listed device has at least one type and no type twice; `Unknown`
/// stands only alone; an Xbox controller is not also vendor specific, and an
/// Arduino is not also composite.
pub proof fn law_device_types_well_formed(d: UsbDescriptor)
    ensures
        device_types_spec(d).len() >= 1,
        device_types_spec(d).no_duplicates(),
        device_types_spec(d).contains(UsbDeviceType::Unknown) ==> device_types_spec(d).len() == 1,
        device_types_spec(d).contains(UsbDeviceType::XboxController) ==> !device_types_spec(
            d,
        ).contains(UsbDeviceType::VendorSpecific),
        device_types_spec(d).contains(UsbDeviceType::Arduino) ==> !device_types_spec(d).contains(
            UsbDeviceType::Composite,
        ),
{
    let s0 = known_types(type_candidates(d));
    lemma_known_types_distinct(type_candidates(d));
    let s1 = if s0.len() == 0 {
        seq![UsbDeviceType::Unknown]
    } else {
        s0
    };
    assert(s1.no_duplicates());
    assert(s1.contains(UsbDeviceType::Unknown) ==> s1.len() == 1) by {
        if s0.len() > 0 && s1.contains(UsbDeviceType::Unknown) {
            assert(s0.contains(UsbDeviceType::Unknown));
        }
    }
    assert(s1.len() >= 1);
    assert(s1.contains(s1[0]));
    let s2 = if s1.contains(UsbDeviceType::XboxController) {
        remove_type(s1, UsbDeviceType::VendorSpecific)
    } else {
        s1
    };
    if s1.contains(UsbDeviceType::XboxController) {
        lemma_remove_type(s1, UsbDeviceType::VendorSpecific);
        assert(s2.contains(UsbDeviceType::XboxController));
        if s1.contains(UsbDeviceType::Unknown) {
            assert(s1 =~= seq![UsbDeviceType::Unknown]);
            assert(!s1.contains(UsbDeviceType::XboxController)) by {
                if s1.contains(UsbDeviceType::XboxController) {
                    let i = choose|i: int| 0 <= i < s1.len() && s1[i] == UsbDeviceType::XboxController;
                }
            }
        }
    }
    assert(s2.no_duplicates());
    assert(s2.len() >= 1) by {
        if s2.len() == 0 {
            if s1.contains(UsbDeviceType::XboxController) {
                let i = choose|i: int| 0 <= i < s2.len() && s2[i] == UsbDeviceType::XboxController;
            }
        }
    }
    assert(s2.contains(UsbDeviceType::Unknown) ==> s2.len() == 1) by {
        if s1.contains(UsbDeviceType::XboxController) && s2.contains(UsbDeviceType::Unknown) {
            assert(s1.contains(UsbDeviceType::Unknown));
            assert(s1 =~= seq![UsbDeviceType::Unknown]);
            let i = choose|i: int| 0 <= i < s1.len() && s1[i] == UsbDeviceType::XboxController;
        }
    }
    if s2.contains(UsbDeviceType::Arduino) {
        lemma_remove_type(s2, UsbDeviceType::Composite);
        let s3 = remove_type(s2, UsbDeviceType::Composite);
        assert(s3.contains(UsbDeviceType::Arduino));
        assert(s3.len() >= 1) by {
            if s3.len() == 0 {
                let i = choose|i: int| 0 <= i < s3.len() && s3[i] == UsbDeviceType::Arduino;
            }
        }
        if s3.contains(UsbDeviceType::Unknown) {
            assert(s2.contains(UsbDeviceType::Unknown));
            assert(s2.len() == 1);
            let i = choose|i: int| 0 <= i < s2.len() && s2[i] == UsbDeviceType::Arduino;
            let j = choose|j: int| 0 <= j < s2.len() && s2[j] == UsbDeviceType::Unknown;
        }
        if s3.contains(UsbDeviceType::XboxController) {
            assert(s2.contains(UsbDeviceType::XboxController));
            assert(s1.contains(UsbDeviceType::XboxController)) by {
                if !s1.contains(UsbDeviceType::XboxController) {
                    assert(s2 == s1);
                }
            }
        }
    }
}

/// The known types are exactly the candidates other than `Unknown`.
proof fn lemma_known_types_members(c: Seq<UsbDeviceType>, t: UsbDeviceType)
    ensures
        known_types(c).contains(t) <==> (c.contains(t) && t != UsbDeviceType::Unknown),
    decreases c.len(),
{
    if c.len() > 0 {
        let p = c.drop_last();
        lemma_known_types_members(p, t);
        let acc = known_types(p);
        if c.contains(t) && t != UsbDeviceType::Unknown {
            let i = choose|i: int| 0 <= i < c.len() && c[i] == t;
            if i < c.len() - 1 {
                assert(p[i] == t);
                let j = choose|j: int| 0 <= j < acc.len() && acc[j] == t;
                if acc.len() < known_types(c).len() {
                    assert(known_types(c)[j] == t);
                }
            } else {
                if !acc.contains(t) {
                    assert(known_types(c)[acc.len() as int] == t);
                }
            }
        }
        if known_types(c).contains(t) {
            let j = choose|j: int| 0 <= j < known_types(c).len() && known_types(c)[j] == t;
            if j < acc.len() {
                assert(acc[j] == t);
                assert(acc.contains(t));
                let i = choose|i: int| 0 <= i < p.len() && p[i] == t;
                assert(c[i] == t);
            } else {
                assert(c[c.len() - 1] == t);
            }
        }
    }
}

/// Whether a device carries the class code `code`, on the device itself or
/// on one of its interfaces.
pub open spec fn carries_class(d: UsbDescriptor, code: u8) -> bool {
    d.class_code == code || exists|i: int|
        0 <= i < d.interfaces@.len() && #[trigger] d.interfaces@[i].class_code == code
}

/// What the candidates of a device are made of.
proof fn lemma_candidates_members(d: UsbDescriptor, t: UsbDeviceType)
    ensures
        type_candidates(d).contains(t) <==> (classify_spec(d.class_code) == t
            || classify_vendor_spec(d.vendor_id, d.product_id, vendor_text(d.manufacturer, d.product))
            == Some(t) || exists|i: int|
            0 <= i < d.interfaces@.len() && classify_spec(#[trigger] d.interfaces@[i].class_code) == t),
{
    let c = type_candidates(d);
    let vendor = match classify_vendor_spec(
        d.vendor_id,
        d.product_id,
        vendor_text(d.manufacturer, d.product),
    ) {
        Some(t) => seq![t],
        None => Seq::empty(),
    };
    let ifs = d.interfaces@.map_values(|i: UsbInterfaceDescriptor| classify_spec(i.class_code));
    let k = 1 + vendor.len();
    assert(c == seq![classify_spec(d.class_code)] + vendor + ifs);
    if c.contains(t) {
        let j = choose|j: int| 0 <= j < c.len() && c[j] == t;
        if j >= k {
            assert(c[j] == ifs[j - k]);
            assert(classify_spec(d.interfaces@[j - k].class_code) == t);
        } else if j == 1 {
            assert(c[1] == vendor[0]);
        } else {
            assert(c[0] == t);
        }
    }
    if classify_spec(d.class_code) == t {
        assert(c[0] == t);
    }
    if classify_vendor_spec(d.vendor_id, d.product_id, vendor_text(d.manufacturer, d.product))
        == Some(t) {
        assert(c[1] == t);
    }
    if exists|i: int|
        0 <= i < d.interfaces@.len() && classify_spec(#[trigger] d.interfaces@[i].class_code) == t {
        let i = choose|i: int|
            0 <= i < d.interfaces@.len() && classify_spec(#[trigger] d.interfaces@[i].class_code) == t;
        assert(c[k + i] == ifs[i]);
    }
}

/// Which types a device ends up with, from its candidates: every known
/// candidate, except that an Xbox controller loses `VendorSpecific` and an
/// Arduino loses `Composite`; `Unknown` only where no candidate is known.
proof fn lemma_device_types_members(d: UsbDescriptor, t: UsbDeviceType)
    ensures
        device_types_spec(d).contains(t) <==> {
            let c = type_candidates(d);
            if t == UsbDeviceType::Unknown {
                forall|u: UsbDeviceType| u != UsbDeviceType::Unknown ==> !c.contains(u)
            } else if t == UsbDeviceType::VendorSpecific {
                c.contains(t) && !c.contains(UsbDeviceType::XboxController)
            } else if t == UsbDeviceType::Composite {
                c.contains(t) && !c.contains(UsbDeviceType::Arduino)
            } else {
                c.contains(t)
            }
        },
{
    let c = type_candidates(d);
    let s0 = known_types(c);
    lemma_known_types_distinct(c);
    lemma_known_types_members(c, t);
    lemma_known_types_members(c, UsbDeviceType::XboxController);
    lemma_known_types_members(c, UsbDeviceType::Arduino);
    let s1 = if s0.len() == 0 {
        seq![UsbDeviceType::Unknown]
    } else {
        s0
    };
    assert(s1.no_duplicates());
    if s0.len() == 0 {
        assert forall|u: UsbDeviceType| u != UsbDeviceType::Unknown implies !c.contains(u) by {
            lemma_known_types_members(c, u);
        }
        assert(s1.contains(UsbDeviceType::Unknown) && s1[0] == UsbDeviceType::Unknown);
        assert(s1.contains(t) <==> t == UsbDeviceType::Unknown);
    } else {
        assert(s0.contains(s0[0]));
        lemma_known_types_members(c, s0[0]);
        assert(!s1.contains(UsbDeviceType::Unknown));
    }
    let s2 = if s1.contains(UsbDeviceType::XboxController) {
        remove_type(s1, UsbDeviceType::VendorSpecific)
    } else {
        s1
    };
    if s1.contains(UsbDeviceType::XboxController) {
        lemma_remove_type(s1, UsbDeviceType::VendorSpecific);
    }
    assert(s2.no_duplicates());
    assert(s2.contains(UsbDeviceType::Arduino) <==> s1.contains(UsbDeviceType::Arduino));
    if s2.contains(UsbDeviceType::Arduino) {
        lemma_remove_type(s2, UsbDeviceType::Composite);
    }
}

/// The class codes of a device, on the device or on any interface, give
/// its types: mass storage (0x08) makes it `Storage`, audio (0x01) `Audio`,
/// communications (0x02) `Serial`, hub (0x09) `Hub`, video (0x0e)
/// `Camera`, wireless (0xe0) `Bluetooth`; miscellaneous (0xef) makes it
/// `Composite` unless it is an Arduino, vendor specific (0xff)
/// `VendorSpecific` unless it is an Xbox controller. `Storage`, `Hub`,
/// `Camera`, `Audio`, `Composite` and `VendorSpecific` come from class
/// codes alone. Well-known vendors are recognised by their ids, and
/// `Unknown` stands only for a device that nothing identifies.
pub proof fn law_usb_types_from_codes(d: UsbDescriptor)
    ensures
        carries_class(d, 0x08) <==> device_types_spec(d).contains(UsbDeviceType::Storage),
        carries_class(d, 0x01) <==> device_types_spec(d).contains(UsbDeviceType::Audio),
        carries_class(d, 0x09) <==> device_types_spec(d).contains(UsbDeviceType::Hub),
        carries_class(d, 0x0e) <==> device_types_spec(d).contains(UsbDeviceType::Camera),
        carries_class(d, 0x02) ==> device_types_spec(d).contains(UsbDeviceType::Serial),
        carries_class(d, 0xe0) ==> device_types_spec(d).contains(UsbDeviceType::Bluetooth),
        carries_class(d, 0xef) ==> device_types_spec(d).contains(UsbDeviceType::Composite)
            || device_types_spec(d).contains(UsbDeviceType::Arduino),
        device_types_spec(d).contains(UsbDeviceType::Composite) ==> carries_class(d, 0xef),
        carries_class(d, 0xff) ==> device_types_spec(d).contains(UsbDeviceType::VendorSpecific)
            || device_types_spec(d).contains(UsbDeviceType::XboxController),
        device_types_spec(d).contains(UsbDeviceType::VendorSpecific) ==> carries_class(d, 0xff),
        d.vendor_id == 0x2341 ==> device_types_spec(d).contains(UsbDeviceType::Arduino),
        d.vendor_id == 0x045e && (d.product_id == 0x02d1 || d.product_id == 0x02dd || d.product_id
            == 0x02ea || d.product_id == 0x028e) ==> device_types_spec(d).contains(
            UsbDeviceType::XboxController,
        ),
        d.vendor_id == 0x045e && !(d.product_id == 0x02d1 || d.product_id == 0x02dd || d.product_id
            == 0x02ea || d.product_id == 0x028e) ==> device_types_spec(d).contains(
            UsbDeviceType::GameController,
        ),
        d.vendor_id == 0x0a12 ==> device_types_spec(d).contains(UsbDeviceType::Bluetooth),
        d.vendor_id == 0x0403 || d.vendor_id == 0x10c4 || d.vendor_id == 0x067b
            ==> device_types_spec(d).contains(UsbDeviceType::Serial),
        d.vendor_id == 0x046d || d.vendor_id == 0x4842 ==> device_types_spec(d).contains(
            UsbDeviceType::Receiver,
        ),
        device_types_spec(d).contains(UsbDeviceType::Unknown) ==> {
            &&& !carries_class(d, 0x01) && !carries_class(d, 0x02) && !carries_class(d, 0x08)
            &&& !carries_class(d, 0x09) && !carries_class(d, 0x0e) && !carries_class(d, 0xe0)
            &&& !carries_class(d, 0xef) && !carries_class(d, 0xff)
        },
{
    let c = type_candidates(d);
    let tv = classify_vendor_spec(d.vendor_id, d.product_id, vendor_text(d.manufacturer, d.product));
    lemma_device_types_members(d, UsbDeviceType::Storage);
    lemma_device_types_members(d, UsbDeviceType::Audio);
    lemma_device_types_members(d, UsbDeviceType::Hub);
    lemma_device_types_members(d, UsbDeviceType::Camera);
    lemma_device_types_members(d, UsbDeviceType::Serial);
    lemma_device_types_members(d, UsbDeviceType::Bluetooth);
    lemma_device_types_members(d, UsbDeviceType::Composite);
    lemma_device_types_members(d, UsbDeviceType::VendorSpecific);
    lemma_device_types_members(d, UsbDeviceType::Arduino);
    lemma_device_types_members(d, UsbDeviceType::XboxController);
    lemma_device_types_members(d, UsbDeviceType::GameController);
    lemma_device_types_members(d, UsbDeviceType::Receiver);
    lemma_device_types_members(d, UsbDeviceType::Unknown);
    lemma_candidates_members(d, UsbDeviceType::Storage);
    lemma_candidates_members(d, UsbDeviceType::Audio);
    lemma_candidates_members(d, UsbDeviceType::Hub);
    lemma_candidates_members(d, UsbDeviceType::Camera);
    lemma_candidates_members(d, UsbDeviceType::Serial);
    lemma_candidates_members(d, UsbDeviceType::Bluetooth);
    lemma_candidates_members(d, UsbDeviceType::Composite);
    lemma_candidates_members(d, UsbDeviceType::VendorSpecific);
    lemma_candidates_members(d, UsbDeviceType::Arduino);
    lemma_candidates_members(d, UsbDeviceType::XboxController);
    lemma_candidates_members(d, UsbDeviceType::GameController);
    lemma_candidates_members(d, UsbDeviceType::Receiver);
    assert forall|code: u8| #[trigger] carries_class(d, code) implies c.contains(classify_spec(code)) by {
        let t = classify_spec(code);
        lemma_candidates_members(d, t);
        if d.class_code != code {
            let i = choose|i: int|
                0 <= i < d.interfaces@.len() && #[trigger] d.interfaces@[i].class_code == code;
            assert(classify_spec(d.interfaces@[i].class_code) == t);
        }
    }
    assert forall|code: u8|
        classify_spec(code) != UsbDeviceType::Unknown && (classify_spec(d.class_code) == classify_spec(
            code,
        ) || exists|i: int|
            0 <= i < d.interfaces@.len() && classify_spec(#[trigger] d.interfaces@[i].class_code)
                == classify_spec(code)) implies #[trigger] carries_class(d, code) by {
        if classify_spec(d.class_code) != classify_spec(code) {
            let i = choose|i: int|
                0 <= i < d.interfaces@.len() && classify_spec(#[trigger] d.interfaces@[i].class_code)
                    == classify_spec(code);
            assert(d.interfaces@[i].class_code == code);
        }
    }
    assert(carries_class(d, 0x08) ==> c.contains(UsbDeviceType::Storage));
    assert(carries_class(d, 0x01) ==> c.contains(UsbDeviceType::Audio));
    assert(carries_class(d, 0x09) ==> c.contains(UsbDeviceType::Hub));
    assert(carries_class(d, 0x0e) ==> c.contains(UsbDeviceType::Camera));
    assert(carries_class(d, 0x02) ==> c.contains(UsbDeviceType::Serial));
    assert(carries_class(d, 0xe0) ==> c.contains(UsbDeviceType::Bluetooth));
    assert(carries_class(d, 0xef) ==> c.contains(UsbDeviceType::Composite));
    assert(carries_class(d, 0xff) ==> c.contains(UsbDeviceType::VendorSpecific));
    assert(classify_spec(0x08) == UsbDeviceType::Storage);
    assert(classify_spec(0x01) == UsbDeviceType::Audio);
    assert(classify_spec(0x09) == UsbDeviceType::Hub);
    assert(classify_spec(0x0e) == UsbDeviceType::Camera);
    assert(classify_spec(0xef) == UsbDeviceType::Composite);
    assert(classify_spec(0xff) == UsbDeviceType::VendorSpecific);
    assert(c.contains(UsbDeviceType::Storage) ==> carries_class(d, 0x08));
    assert(c.contains(UsbDeviceType::Audio) ==> carries_class(d, 0x01));
    assert(c.contains(UsbDeviceType::Hub) ==> carries_class(d, 0x09));
    assert(c.contains(UsbDeviceType::Camera) ==> carries_class(d, 0x0e));
    assert(c.contains(UsbDeviceType::Composite) ==> carries_class(d, 0xef));
    assert(c.contains(UsbDeviceType::VendorSpecific) ==> carries_class(d, 0xff));
}

/// The device types of `d`.
pub fn device_types(d: &UsbDescriptor) -> (r: Vec<UsbDeviceType>)
    ensures
        r@ == device_types_spec(*d),
{
    let ghost cands = type_candidates(*d);
    let ghost vendor_part = match classify_vendor_spec(
        d.vendor_id,
        d.product_id,
        vendor_text(d.manufacturer, d.product),
    ) {
        Some(t) => seq![t],
        None => Seq::<UsbDeviceType>::empty(),
    };
    let ghost iface_part = d.interfaces@.map_values(
        |i: UsbInterfaceDescriptor| classify_spec(i.class_code),
    );
    let mut types: Vec<UsbDeviceType> = Vec::new();
    add_type(&mut types, classify(d.class_code));
    proof {
        lemma_known_types_step(cands, 0);
        assert(cands.subrange(0, 0) =~= Seq::<UsbDeviceType>::empty());
    }
    let ghost mut k: int = 1;
    assert(types@ == known_types(cands.subrange(0, k)));
    match classify_vendor(d.vendor_id, d.product_id, &d.manufacturer, &d.product) {
        Some(t) => {
            add_type(&mut types, t);
            proof {
                lemma_known_types_step(cands, 1);
                k = 2;
            }
        },
        None => {},
    }
    assert(k == 1 + vendor_part.len());
    assert(types@ == known_types(cands.subrange(0, k)));
    let mut i: usize = 0;
    while i < d.interfaces.len()
        invariant
            i <= d.interfaces@.len(),
            k == 1 + vendor_part.len(),
            cands == seq![classify_spec(d.class_code)] + vendor_part + iface_part,
            iface_part.len() == d.interfaces@.len(),
            forall|j: int| 0 <= j < iface_part.len() ==> iface_part[j] == classify_spec(
                #[trigger] d.interfaces@[j].class_code,
            ),
            types@ == known_types(cands.subrange(0, k + i)),
        decreases d.interfaces@.len() - i,
    {
        let c = d.interfaces[i].class_code;
        add_type(&mut types, classify(c));
        proof {
            lemma_known_types_step(cands, k + i);
            assert(cands[k + i] == iface_part[i as int]);
        }
        i += 1;
    }
    assert(cands.subrange(0, k + i) =~= cands);
    if types.len() == 0 {
        types.push(UsbDeviceType::Unknown);
    }
    if contains_type(&types, UsbDeviceType::XboxController) {
        types = retain_not(types, UsbDeviceType::VendorSpecific);
    }
    if contains_type(&types, UsbDeviceType::Arduino) {
        types = retain_not(types, UsbDeviceType::Composite);
    }
    types
}

/// The interface types of `d`, the most telling first (a stable ordering
/// by descending score).
pub fn interface_types(d: &UsbDescriptor) -> (r: Vec<UsbInterfaceType>)
    ensures
        stably_sorted(interface_candidates(*d), r@),
        r@ == sorted_spec(interface_candidates(*d)),
{
    let ghost cands = d.interfaces@.map_values(
        |i: UsbInterfaceDescriptor| classify_interface_spec(i.class_code),
    );
    let mut found: Vec<UsbInterfaceType> = Vec::new();
    let mut i: usize = 0;
    while i < d.interfaces.len()
        invariant
            i <= d.interfaces@.len(),
            cands.len() == d.interfaces@.len(),
            forall|j: int| 0 <= j < cands.len() ==> cands[j] == classify_interface_spec(
                #[trigger] d.interfaces@[j].class_code,
            ),
            found@ == known_interfaces(cands.subrange(0, i as int)),
        decreases d.interfaces@.len() - i,
    {
        let it = d.interfaces[i];
        add_interface(
            &mut found,
            classify_interface(it.class_code, it.sub_class_code, it.protocol_code),
        );
        assert(cands.subrange(0, i + 1).drop_last() =~= cands.subrange(0, i as int));
        i += 1;
    }
    assert(cands.subrange(0, i as int) =~= cands);
    stable_sort(found)
}

/// The name a device is listed under.
pub fn device_name(d: &UsbDescriptor) -> (r: String)
    ensures
        r@ == device_name_spec(*d),
{
    match &d.product {
        Some(p) => p.clone(),
        None => {
            let mut s = String::new();
            push_str(&mut s, "USB ");
            push_hex4(&mut s, d.vendor_id);
            push_str(&mut s, ":");
            push_hex4(&mut s, d.product_id);
            s
        },
    }
}

/// The listed device for a descriptor.
pub open spec fn device_info_spec(d: UsbDescriptor, info: UsbDeviceInfo) -> bool {
    &&& info.name@ == device_name_spec(d)
    &&& info.manufacturer == d.manufacturer
    &&& info.product == d.product
    &&& info.serial_number == d.serial_number
    &&& info.vendor_id@ == hex4(d.vendor_id)
    &&& info.product_id@ == hex4(d.product_id)
    &&& info.device_class == Some(d.class_code)
    &&& info.device_sub_class == Some(d.sub_class_code)
    &&& info.device_protocol == Some(d.protocol_code)
    &&& info.device_types@ == device_types_spec(d)
    &&& stably_sorted(interface_candidates(d), info.interface_types@)
    &&& info.interface_types@ == sorted_spec(interface_candidates(d))
    &&& info.bus == d.bus
    &&& info.port == d.port
}

impl UsbDeviceInfo {
    /// The listed device for a descriptor.
    pub fn from_descriptor(d: &UsbDescriptor) -> (r: UsbDeviceInfo)
        ensures
            device_info_spec(*d, r),
    {
        let mut vid = String::new();
        push_hex4(&mut vid, d.vendor_id);
        let mut pid = String::new();
        push_hex4(&mut pid, d.product_id);
        assert(vid@ =~= hex4(d.vendor_id));
        assert(pid@ =~= hex4(d.product_id));
        UsbDeviceInfo {
            name: device_name(d),
            manufacturer: d.manufacturer.clone(),
            product: d.product.clone(),
            serial_number: d.serial_number.clone(),
            vendor_id: vid,
            product_id: pid,
            device_class: Some(d.class_code),
            device_sub_class: Some(d.sub_class_code),
            device_protocol: Some(d.protocol_code),
            device_types: device_types(d),
            interface_types: interface_types(d),
            bus: d.bus,
            port: d.port,
        }
    }
}

/// The devices that are listed: those with a vendor id and a product id
/// other than zero.
pub open spec fn listed(d: UsbDescriptor) -> bool {
    d.vendor_id != 0 && d.product_id != 0
}

/// `list` is the USB list for the enumerated devices: each device with
/// non-zero ids described, then ordered stably by descending highest type
/// score and ascending name.
pub open spec fn usb_list_spec(devices: Seq<UsbDescriptor>, list: Seq<UsbDeviceInfo>) -> bool {
    exists|unsorted: Seq<UsbDeviceInfo>|
        {
            &&& unsorted.len() == devices.filter(|d: UsbDescriptor| listed(d)).len()
            &&& forall|k: int|
                0 <= k < unsorted.len() ==> device_info_spec(
                    devices.filter(|d: UsbDescriptor| listed(d))[k],
                    #[trigger] unsorted[k],
                )
            &&& list == sorted_spec(unsorted)
            &&& stably_sorted(unsorted, list)
        }
}

/// The USB list for the enumerated devices: each device with non-zero ids,
/// described, then ordered stably by descending highest type score and
/// ascending name.
pub fn usb_list(devices: Vec<UsbDescriptor>) -> (r: Vec<UsbDeviceInfo>)
    ensures
        usb_list_spec(devices@, r@),
{
    let ghost kept = devices@.filter(|d: UsbDescriptor| listed(d));
    let mut infos: Vec<UsbDeviceInfo> = Vec::new();
    let mut i: usize = 0;
    while i < devices.len()
        invariant
            i <= devices@.len(),
            infos@.len() == devices@.subrange(0, i as int).filter(|d: UsbDescriptor| listed(d)).len(),
            forall|k: int|
                0 <= k < infos@.len() ==> device_info_spec(
                    devices@.subrange(0, i as int).filter(|d: UsbDescriptor| listed(d))[k],
                    #[trigger] infos@[k],
                ),
        decreases devices@.len() - i,
    {
        let ghost pre = devices@.subrange(0, i as int);
        let ghost next = devices@.subrange(0, i + 1);
        assert(next.drop_last() =~= pre);
        reveal_with_fuel(Seq::filter, 1);
        let d = &devices[i];
        if d.vendor_id != 0 && d.product_id != 0 {
            let info = UsbDeviceInfo::from_descriptor(d);
            infos.push(info);
        }
        i += 1;
    }
    assert(devices@.subrange(0, devices@.len() as int) =~= devices@);
    stable_sort(infos)
}

proof fn lemma_max_score(types: Seq<UsbDeviceType>)
    ensures
        forall|i: int| 0 <= i < types.len() ==> score_type_spec(#[trigger] types[i]) <= max_score(types),
        types.len() == 0 ==> max_score(types) == 0,
        types.len() > 0 ==> exists|i: int|
            0 <= i < types.len() && score_type_spec(#[trigger] types[i]) == max_score(types),
    decreases types.len(),
{
    if types.len() > 0 {
        let p = types.drop_last();
        lemma_max_score(p);
        assert forall|i: int| 0 <= i < types.len() implies score_type_spec(#[trigger] types[i])
            <= max_score(types) by {
            if i < types.len() - 1 {
                assert(types[i] == p[i]);
            }
        }
        if max_score(types) != score_type_spec(types.last()) {
            let i = choose|i: int| 0 <= i < p.len() && score_type_spec(#[trigger] p[i]) == max_score(p);
            assert(types[i] == p[i]);
        }
    }
}

/// How a device ranks in the list, by the most telling of its types:
/// Arduino boards and Xbox controllers first (100), then game controllers
/// (90), storage and serial adapters (80), audio and cameras (70),
/// Bluetooth, network and receivers (60), composite (20), vendor specific
/// (10) and hubs (5) devices; a device of unknown type ranks last (0).
pub proof fn law_usb_rank(types: Seq<UsbDeviceType>)
    ensures
        max_score(types) <= 100,
        types.contains(UsbDeviceType::Arduino) || types.contains(UsbDeviceType::XboxController)
            <==> max_score(types) == 100,
        types.contains(UsbDeviceType::GameController) ==> max_score(types) >= 90,
        types.contains(UsbDeviceType::Storage) || types.contains(UsbDeviceType::Serial)
            ==> max_score(types) >= 80,
        types.contains(UsbDeviceType::Audio) || types.contains(UsbDeviceType::Camera)
            ==> max_score(types) >= 70,
        types.contains(UsbDeviceType::Bluetooth) || types.contains(UsbDeviceType::Network)
            || types.contains(UsbDeviceType::Receiver) ==> max_score(types) >= 60,
        types.contains(UsbDeviceType::Composite) ==> max_score(types) >= 20,
        types.contains(UsbDeviceType::VendorSpecific) ==> max_score(types) >= 10,
        types.contains(UsbDeviceType::Hub) ==> max_score(types) >= 5,
        !types.contains(UsbDeviceType::Arduino) && !types.contains(UsbDeviceType::XboxController)
            && !types.contains(UsbDeviceType::GameController) ==> max_score(types) <= 80,
        max_score(types) > 70 ==> types.contains(UsbDeviceType::Arduino) || types.contains(
            UsbDeviceType::XboxController,
        ) || types.contains(UsbDeviceType::GameController) || types.contains(
            UsbDeviceType::Storage,
        ) || types.contains(UsbDeviceType::Serial),
        max_score(types) > 60 ==> !(forall|i: int|
            0 <= i < types.len() ==> #[trigger] types[i] == UsbDeviceType::Bluetooth || types[i]
                == UsbDeviceType::Network || types[i] == UsbDeviceType::Receiver || types[i]
                == UsbDeviceType::Composite || types[i] == UsbDeviceType::VendorSpecific || types[i]
                == UsbDeviceType::Hub || types[i] == UsbDeviceType::Unknown),
        (forall|i: int|
            0 <= i < types.len() ==> #[trigger] types[i] == UsbDeviceType::Composite || types[i]
                == UsbDeviceType::VendorSpecific || types[i] == UsbDeviceType::Hub || types[i]
                == UsbDeviceType::Unknown) ==> max_score(types) <= 20,
        (forall|i: int|
            0 <= i < types.len() ==> #[trigger] types[i] == UsbDeviceType::Hub || types[i]
                == UsbDeviceType::Unknown) ==> max_score(types) <= 5,
        (forall|i: int| 0 <= i < types.len() ==> #[trigger] types[i] == UsbDeviceType::Unknown)
            ==> max_score(types) == 0,
{
    lemma_max_score(types);
    if types.len() > 0 {
        let w = choose|i: int| 0 <= i < types.len() && score_type_spec(#[trigger] types[i]) == max_score(types);
        assert(types.contains(types[w]));
    }
    assert forall|t: UsbDeviceType| types.contains(t) implies score_type_spec(t) <= max_score(types) by {
        let i = choose|i: int| 0 <= i < types.len() && types[i] == t;
        assert(score_type_spec(types[i]) <= max_score(types));
    }
}

/// The USB list ranks its devices: no device stands after one whose most
/// telling type ranks lower, and devices of equal rank stand in order of
/// name.
pub proof fn law_usb_list_ranked(devices: Seq<UsbDescriptor>, list: Seq<UsbDeviceInfo>)
    requires
        usb_list_spec(devices, list),
    ensures
        forall|i: int, j: int|
            0 <= i < j < list.len() ==> max_score(#[trigger] list[i].device_types@) >= max_score(
                #[trigger] list[j].device_types@,
            ),
        forall|i: int, j: int|
            0 <= i < j < list.len() && max_score(#[trigger] list[i].device_types@) == max_score(
                #[trigger] list[j].device_types@,
            ) ==> !lex_lt(list[j].name@, list[i].name@),
{
    let unsorted = choose|unsorted: Seq<UsbDeviceInfo>|
        {
            &&& unsorted.len() == devices.filter(|d: UsbDescriptor| listed(d)).len()
            &&& forall|k: int|
                0 <= k < unsorted.len() ==> device_info_spec(
                    devices.filter(|d: UsbDescriptor| listed(d))[k],
                    #[trigger] unsorted[k],
                )
            &&& list == sorted_spec(unsorted)
            &&& stably_sorted(unsorted, list)
        };
    assert(is_sorted(list));
    assert forall|i: int, j: int| 0 <= i < j < list.len() implies max_score(
        #[trigger] list[i].device_types@,
    ) >= max_score(#[trigger] list[j].device_types@) by {
        assert(!list[j].precedes(&list[i]));
    }
    assert forall|i: int, j: int|
        0 <= i < j < list.len() && max_score(#[trigger] list[i].device_types@) == max_score(
            #[trigger] list[j].device_types@,
        ) implies !lex_lt(list[j].name@, list[i].name@) by {
        assert(!list[j].precedes(&list[i]));
    }
}

/// The known interface types are exactly the candidates other than
/// `Unknown`.
proof fn lemma_known_interfaces_members(c: Seq<UsbInterfaceType>, t: UsbInterfaceType)
    ensures
        known_interfaces(c).contains(t) <==> (c.contains(t) && t != UsbInterfaceType::Unknown),
    decreases c.len(),
{
    if c.len() > 0 {
        let p = c.drop_last();
        lemma_known_interfaces_members(p, t);
        let acc = known_interfaces(p);
        if c.contains(t) && t != UsbInterfaceType::Unknown {
            let i = choose|i: int| 0 <= i < c.len() && c[i] == t;
            if i < c.len() - 1 {
                assert(p[i] == t);
                let j = choose|j: int| 0 <= j < acc.len() && acc[j] == t;
                if acc.len() < known_interfaces(c).len() {
                    assert(known_interfaces(c)[j] == t);
                }
            } else {
                if !acc.contains(t) {
                    assert(known_interfaces(c)[acc.len() as int] == t);
                }
            }
        }
        if known_interfaces(c).contains(t) {
            let j = choose|j: int| 0 <= j < known_interfaces(c).len() && known_interfaces(c)[j] == t;
            if j < acc.len() {
                assert(acc[j] == t);
                assert(acc.contains(t));
                let i = choose|i: int| 0 <= i < p.len() && p[i] == t;
                assert(c[i] == t);
            } else {
                assert(c[c.len() - 1] == t);
            }
        }
    }
}

/// Whether one of a device's interfaces has the class code `code`.
pub open spec fn has_interface_class(d: UsbDescriptor, code: u8) -> bool {
    exists|i: int| 0 <= i < d.interfaces@.len() && #[trigger] d.interfaces@[i].class_code == code
}

/// The interface types of a listed device are read off its interfaces'
/// class codes: HID (0x03) is `Hid`, communications (0x02) `CdcAcm`, audio
/// (0x01) `Audio`, video (0x0e) `Video`, mass storage (0x08) `Storage`,
/// hub (0x09) `Hub`, wireless (0xe0) `Bluetooth`, miscellaneous (0xef)
/// `Composite`, vendor specific (0xff) `VendorSpecific`. They are listed
/// most telling first: HID, then CDC-ACM, audio, video, storage,
/// Bluetooth and vendor specific interfaces.
pub proof fn law_usb_interface_types(d: UsbDescriptor, info: UsbDeviceInfo)
    requires
        device_info_spec(d, info),
    ensures
        has_interface_class(d, 0x03) <==> info.interface_types@.contains(UsbInterfaceType::Hid),
        has_interface_class(d, 0x02) <==> info.interface_types@.contains(UsbInterfaceType::CdcAcm),
        has_interface_class(d, 0x01) <==> info.interface_types@.contains(UsbInterfaceType::Audio),
        has_interface_class(d, 0x0e) <==> info.interface_types@.contains(UsbInterfaceType::Video),
        has_interface_class(d, 0x08) <==> info.interface_types@.contains(UsbInterfaceType::Storage),
        has_interface_class(d, 0x09) <==> info.interface_types@.contains(UsbInterfaceType::Hub),
        has_interface_class(d, 0xe0) <==> info.interface_types@.contains(UsbInterfaceType::Bluetooth),
        has_interface_class(d, 0xef) <==> info.interface_types@.contains(UsbInterfaceType::Composite),
        has_interface_class(d, 0xff) <==> info.interface_types@.contains(
            UsbInterfaceType::VendorSpecific,
        ),
        !info.interface_types@.contains(UsbInterfaceType::Unknown),
        interface_score_spec(UsbInterfaceType::Hid) > interface_score_spec(UsbInterfaceType::CdcAcm),
        interface_score_spec(UsbInterfaceType::CdcAcm) > interface_score_spec(UsbInterfaceType::Audio),
        interface_score_spec(UsbInterfaceType::Audio) > interface_score_spec(UsbInterfaceType::Video),
        interface_score_spec(UsbInterfaceType::Video) > interface_score_spec(UsbInterfaceType::Storage),
        interface_score_spec(UsbInterfaceType::Storage) > interface_score_spec(
            UsbInterfaceType::Bluetooth,
        ),
        interface_score_spec(UsbInterfaceType::Bluetooth) > interface_score_spec(
            UsbInterfaceType::VendorSpecific,
        ),
        interface_score_spec(UsbInterfaceType::VendorSpecific) > interface_score_spec(
            UsbInterfaceType::Hub,
        ),
        interface_score_spec(UsbInterfaceType::Hub) == interface_score_spec(UsbInterfaceType::Composite),
        forall|i: int, j: int|
            0 <= i < j < info.interface_types@.len() ==> interface_score_spec(
                #[trigger] info.interface_types@[i],
            ) >= interface_score_spec(#[trigger] info.interface_types@[j]),
{
    let c = d.interfaces@.map_values(|i: UsbInterfaceDescriptor| classify_interface_spec(i.class_code));
    let cands = interface_candidates(d);
    let out = info.interface_types@;
    let perm = choose|perm: Seq<int>| arrangement(cands, out, perm);
    assert forall|t: UsbInterfaceType| out.contains(t) <==> cands.contains(t) by {
        if out.contains(t) {
            let k = choose|k: int| 0 <= k < out.len() && out[k] == t;
            assert(out[k] == cands[perm[k]]);
        }
        if cands.contains(t) {
            let i = choose|i: int| 0 <= i < cands.len() && cands[i] == t;
            lemma_sorted_keeps(cands, i);
        }
    }
    assert forall|t: UsbInterfaceType| cands.contains(t) <==> (c.contains(t) && t != UsbInterfaceType::Unknown) by {
        lemma_known_interfaces_members(c, t);
    }
    assert forall|code: u8| classify_interface_spec(code) != UsbInterfaceType::Unknown implies (#[trigger] has_interface_class(d, code) <==> c.contains(classify_interface_spec(code))) by {
        if has_interface_class(d, code) {
            let i = choose|i: int| 0 <= i < d.interfaces@.len() && #[trigger] d.interfaces@[i].class_code == code;
            assert(c[i] == classify_interface_spec(code));
        }
        if c.contains(classify_interface_spec(code)) {
            let i = choose|i: int| 0 <= i < c.len() && c[i] == classify_interface_spec(code);
            assert(classify_interface_spec(d.interfaces@[i].class_code) == classify_interface_spec(code));
            assert(d.interfaces@[i].class_code == code);
        }
    }
    assert(classify_interface_spec(0x03) == UsbInterfaceType::Hid);
    assert(classify_interface_spec(0x02) == UsbInterfaceType::CdcAcm);
    assert(classify_interface_spec(0x01) == UsbInterfaceType::Audio);
    assert(classify_interface_spec(0x0e) == UsbInterfaceType::Video);
    assert(classify_interface_spec(0x08) == UsbInterfaceType::Storage);
    assert(classify_interface_spec(0x09) == UsbInterfaceType::Hub);
    assert(classify_interface_spec(0xe0) == UsbInterfaceType::Bluetooth);
    assert(classify_interface_spec(0xef) == UsbInterfaceType::Composite);
    assert(classify_interface_spec(0xff) == UsbInterfaceType::VendorSpecific);
    assert(has_interface_class(d, 0x03) == has_interface_class(d, 0x03));
    assert(has_interface_class(d, 0x02) == has_interface_class(d, 0x02));
    assert(has_interface_class(d, 0x01) == has_interface_class(d, 0x01));
    assert(has_interface_class(d, 0x0e) == has_interface_class(d, 0x0e));
    assert(has_interface_class(d, 0x08) == has_interface_class(d, 0x08));
    assert(has_interface_class(d, 0x09) == has_interface_class(d, 0x09));
    assert(has_interface_class(d, 0xe0) == has_interface_class(d, 0xe0));
    assert(has_interface_class(d, 0xef) == has_interface_class(d, 0xef));
    assert(has_interface_class(d, 0xff) == has_interface_class(d, 0xff));
    assert forall|i: int, j: int| 0 <= i < j < out.len() implies interface_score_spec(
        #[trigger] out[i],
    ) >= interface_score_spec(#[trigger] out[j]) by {
        assert(!out[j].precedes(&out[i]));
    }
}

/// `info` describes one of `devices` whose vendor id and product id are
/// both set.
pub open spec fn describes_set_device(devices: Seq<UsbDescriptor>, info: UsbDeviceInfo) -> bool {
    exists|i: int|
        0 <= i < devices.len() && devices[i].vendor_id != 0 && devices[i].product_id != 0
            && device_info_spec(#[trigger] devices[i], info)
}

/// The USB list describes exactly the enumerated devices whose vendor id
/// and product id are both set (not zero), each once.
pub proof fn law_usb_list_listed(devices: Seq<UsbDescriptor>, list: Seq<UsbDeviceInfo>)
    requires
        usb_list_spec(devices, list),
    ensures
        forall|k: int| 0 <= k < list.len() ==> describes_set_device(devices, #[trigger] list[k]),
        forall|i: int|
            0 <= i < devices.len() && (#[trigger] devices[i]).vendor_id != 0 && devices[i].product_id
                != 0 ==> exists|k: int| 0 <= k < list.len() && device_info_spec(devices[i], list[k]),
        list.len() <= devices.len(),
{
    let kept = devices.filter(|d: UsbDescriptor| listed(d));
    let unsorted = choose|unsorted: Seq<UsbDeviceInfo>|
        {
            &&& unsorted.len() == devices.filter(|d: UsbDescriptor| listed(d)).len()
            &&& forall|k: int|
                0 <= k < unsorted.len() ==> device_info_spec(
                    devices.filter(|d: UsbDescriptor| listed(d))[k],
                    #[trigger] unsorted[k],
                )
            &&& list == sorted_spec(unsorted)
            &&& stably_sorted(unsorted, list)
        };
    devices.filter_lemma(|d: UsbDescriptor| listed(d));
    let perm = choose|perm: Seq<int>| arrangement(unsorted, list, perm);
    assert forall|k: int| 0 <= k < list.len() implies describes_set_device(devices, #[trigger] list[k]) by {
        let j = perm[k];
        assert(list[k] == unsorted[j]);
        assert(device_info_spec(kept[j], unsorted[j]));
        assert(kept.contains(kept[j]));
        devices.lemma_filter_contains_rev(|d: UsbDescriptor| listed(d), kept[j]);
        let i = choose|i: int| 0 <= i < devices.len() && devices[i] == kept[j];
        assert(listed(kept[j]));
        assert(device_info_spec(devices[i], list[k]));
    }
    assert forall|i: int|
        0 <= i < devices.len() && (#[trigger] devices[i]).vendor_id != 0 && devices[i].product_id
            != 0 implies exists|k: int| 0 <= k < list.len() && device_info_spec(devices[i], list[k]) by {
        assert(listed(devices[i]));
        assert(kept.contains(devices[i]));
        let j = choose|j: int| 0 <= j < kept.len() && kept[j] == devices[i];
        lemma_sorted_keeps(unsorted, j);
        let k = choose|k: int| 0 <= k < sorted_spec(unsorted).len() && #[trigger] sorted_spec(unsorted)[k] == unsorted[j];
        assert(device_info_spec(devices[i], list[k]));
    }
}

} // verus!
