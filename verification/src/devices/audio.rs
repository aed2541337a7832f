//! Audio devices: which reported endpoints are physical, how endpoints of
//! one card are merged into one device, and the order of the list.
use vstd::prelude::*;
use crate::sort::{arrangement, is_sorted, lemma_sorted_keeps, Ranked, lex_lt, lex_less, stable_sort, sorted_spec, stably_sorted, lemma_lex_irreflexive, lemma_lex_transitive, lemma_lex_total};
use crate::text::{chars_of, collapse_spaces, contains_chars, has_infix, join_spaced, lowercase, replace_all, replace_chars, string_of, to_lower, trim, trim_chars, words};

verus! {

/// Input or output.
#[derive(Debug, Clone, Copy, PartialEq, Eq, Structural, PartialOrd, Ord)]
pub enum AudioDeviceType {
    Input,
    Output,
}

/// The sound system an endpoint goes through.
#[derive(Debug, Clone, Copy, PartialEq, Eq, Structural)]
pub enum AudioBackend {
    Hw,
    PlugHw,
    SysDefault,
    Front,
    Surround,
    Hdmi,
    UsbStream,
    Unknown,
}

/// A supported stream configuration: channel count and sample rate range.
#[derive(Debug, Clone, Copy, PartialEq, Eq, Structural)]
pub struct AudioConfigInfo {
    pub channels: u16,
    pub sample_rate_min: u32,
    pub sample_rate_max: u32,
}

/// An audio device as listed.
#[derive(Debug, Clone)]
pub struct AudioDeviceInfo {
    pub id: String,
    pub name: String,
    pub kind: AudioDeviceType,
    pub default: bool,
    pub is_physical: bool,
    pub configs: Vec<AudioConfigInfo>,
}

/// What the audio host reports of one endpoint.
#[derive(Debug, Clone)]
pub struct AudioEndpointReport {
    pub name: String,
    /// The endpoint's id, when the host gives one.
    pub id: Option<String>,
    pub kind: AudioDeviceType,
    /// The supported configurations as reported (none when they could not
    /// be read).
    pub configs: Vec<AudioConfigInfo>,
}

/// The words that mark an endpoint as virtual or as a processing plugin.
pub open spec fn virtual_markers() -> Seq<Seq<char>> {
    seq![
        "monitor"@,
        "null"@,
        "dummy"@,
        "loopback"@,
        "pulse"@,
        "pipewire"@,
        "jack"@,
        "oss"@,
        "plugin"@,
        "rate converter"@,
        "speex"@,
        "ffmpeg"@,
        "upmix"@,
        "downmix"@,
        "discard"@,
        "spatialization"@,
        "resampler"@,
        "usbstream"@,
    ]
}

fn virtual_markers_exec() -> (r: Vec<&'static str>)
    ensures
        r@.len() == virtual_markers().len(),
        forall|k: int| 0 <= k < r@.len() ==> #[trigger] r@[k]@ == virtual_markers()[k],
{
    let r = vec![
        "monitor",
        "null",
        "dummy",
        "loopback",
        "pulse",
        "pipewire",
        "jack",
        "oss",
        "plugin",
        "rate converter",
        "speex",
        "ffmpeg",
        "upmix",
        "downmix",
        "discard",
        "spatialization",
        "resampler",
        "usbstream",
    ];
    assert forall|k: int| 0 <= k < r@.len() implies #[trigger] r@[k]@ == virtual_markers()[k] by {
    }
    r
}

/// An endpoint is physical unless its lowercased name or id mentions one of
/// the virtual markers.
pub open spec fn is_physical_spec(name: Seq<char>, id: Seq<char>) -> bool {
    !exists|k: int|
        0 <= k < virtual_markers().len() && (has_infix(lowercase(name), virtual_markers()[k])
            || has_infix(lowercase(id), virtual_markers()[k]))
}

/// Whether an endpoint with this name and id is a physical device.
pub fn is_physical_device(name: &str, id: &str) -> (r: bool)
    ensures
        r == is_physical_spec(name@, id@),
{
    let n = to_lower(name);
    let i = to_lower(id);
    let nc = chars_of(n.as_str());
    let ic = chars_of(i.as_str());
    let markers = virtual_markers_exec();
    let mut k: usize = 0;
    while k < markers.len()
        invariant
            k <= markers@.len(),
            markers@.len() == virtual_markers().len(),
            forall|j: int| 0 <= j < markers@.len() ==> #[trigger] markers@[j]@ == virtual_markers()[j],
            nc@ == lowercase(name@),
            ic@ == lowercase(id@),
            forall|j: int|
                0 <= j < k ==> !(has_infix(lowercase(name@), virtual_markers()[j]) || has_infix(
                    lowercase(id@),
                    virtual_markers()[j],
                )),
        decreases markers@.len() - k,
    {
        let w = chars_of(markers[k]);
        if contains_chars(nc.as_slice(), w.as_slice()) || contains_chars(ic.as_slice(), w.as_slice()) {
            return false;
        }
        k += 1;
    }
    true
}

/// The name parts removed before grouping endpoints of one card.
pub open spec fn group_noise() -> Seq<Seq<char>> {
    seq![", analog"@, ", alt analog"@, ", usb audio"@, "input"@, "output"@]
}

/// `s` with each of `pats` removed in turn.
pub open spec fn remove_each(s: Seq<char>, pats: Seq<Seq<char>>) -> Seq<char>
    decreases pats.len(),
{
    if pats.len() == 0 {
        s
    } else {
        remove_each(replace_all(s, pats[0], Seq::empty()), pats.drop_first())
    }
}

/// The key under which endpoints of one device are grouped: the lowercased
/// name without the group noise, its words joined by single spaces.
pub open spec fn group_key_spec(name: Seq<char>) -> Seq<char> {
    trim(join_spaced(words(remove_each(lowercase(name), group_noise()))))
}

/// The grouping key of an endpoint name.
pub fn device_group_key(name: &str) -> (r: Vec<char>)
    ensures
        r@ == group_key_spec(name@),
{
    let lower = to_lower(name);
    let mut s = chars_of(lower.as_str());
    let pats = vec![", analog", ", alt analog", ", usb audio", "input", "output"];
    let empty: Vec<char> = Vec::new();
    let mut k: usize = 0;
    assert(group_noise().subrange(0, group_noise().len() as int) =~= group_noise());
    while k < pats.len()
        invariant
            k <= pats@.len(),
            pats@.len() == group_noise().len(),
            forall|j: int| 0 <= j < pats@.len() ==> #[trigger] pats@[j]@ == group_noise()[j],
            empty@ == Seq::<char>::empty(),
            remove_each(lowercase(name@), group_noise()) == remove_each(
                s@,
                group_noise().subrange(k as int, group_noise().len() as int),
            ),
        decreases pats@.len() - k,
    {
        let p = chars_of(pats[k]);
        proof {
            reveal_strlit(", analog");
            reveal_strlit(", alt analog");
            reveal_strlit(", usb audio");
            reveal_strlit("input");
            reveal_strlit("output");
            assert(p@.len() > 0);
            let rest = group_noise().subrange(k as int, group_noise().len() as int);
            assert(rest[0] == p@);
            assert(rest.drop_first() =~= group_noise().subrange(k + 1, group_noise().len() as int));
        }
        s = replace_chars(s.as_slice(), p.as_slice(), empty.as_slice());
        k += 1;
    }
    assert(group_noise().subrange(5, 5) =~= Seq::<Seq<char>>::empty());
    let c = collapse_spaces(s.as_slice());
    trim_chars(c.as_slice())
}

/// How directly an endpoint id addresses the hardware.
pub open spec fn endpoint_score_spec(id: Seq<char>) -> u8 {
    let i = lowercase(id);
    if has_infix(i, "hw:"@) {
        3
    } else if has_infix(i, "front:"@) {
        2
    } else if has_infix(i, "sysdefault"@) {
        1
    } else {
        0
    }
}

/// How directly an endpoint id addresses the hardware.
pub fn endpoint_score(id: &str) -> (r: u8)
    ensures
        r == endpoint_score_spec(id@),
{
    let l = to_lower(id);
    let i = chars_of(l.as_str());
    let a = chars_of("hw:");
    let b = chars_of("front:");
    let c = chars_of("sysdefault");
    if contains_chars(i.as_slice(), a.as_slice()) {
        3
    } else if contains_chars(i.as_slice(), b.as_slice()) {
        2
    } else if contains_chars(i.as_slice(), c.as_slice()) {
        1
    } else {
        0
    }
}

impl Ranked for AudioConfigInfo {
    /// Higher maximum rate first, then more channels.
    open spec fn precedes(&self, other: &Self) -> bool {
        self.sample_rate_max > other.sample_rate_max || (self.sample_rate_max
            == other.sample_rate_max && self.channels > other.channels)
    }

    proof fn precedes_irreflexive(a: &Self) {
    }

    proof fn precedes_transitive(a: &Self, b: &Self, c: &Self) {
    }

    proof fn tie_transitive(a: &Self, b: &Self, c: &Self) {
    }

    fn goes_before(&self, other: &Self) -> (r: bool) {
        self.sample_rate_max > other.sample_rate_max || (self.sample_rate_max
            == other.sample_rate_max && self.channels > other.channels)
    }
}

/// A configuration is kept when its rates lie within 4 kHz and 768 kHz.
pub open spec fn rate_in_range(c: AudioConfigInfo) -> bool {
    !(c.sample_rate_min < 4_000) && !(c.sample_rate_max > 768_000)
}

/// `s` without values equal to the one just before them (`Vec::dedup`).
pub open spec fn dedup_adjacent(s: Seq<AudioConfigInfo>) -> Seq<AudioConfigInfo>
    decreases s.len(),
{
    if s.len() <= 1 {
        s
    } else {
        let d = dedup_adjacent(s.drop_last());
        if s.last() == s[s.len() - 2] {
            d
        } else {
            d.push(s.last())
        }
    }
}

/// Removes values equal to the one just before them.
pub fn dedup_configs(s: Vec<AudioConfigInfo>) -> (r: Vec<AudioConfigInfo>)
    ensures
        r@ == dedup_adjacent(s@),
{
    let mut r: Vec<AudioConfigInfo> = Vec::new();
    let mut i: usize = 0;
    while i < s.len()
        invariant
            i <= s@.len(),
            r@ == dedup_adjacent(s@.subrange(0, i as int)),
        decreases s@.len() - i,
    {
        let ghost t = s@.subrange(0, i + 1);
        assert(t.drop_last() =~= s@.subrange(0, i as int));
        if i == 0 || s[i] != s[i - 1] {
            r.push(s[i]);
            proof {
                if i == 0 {
                    assert(t =~= seq![s@[0]]);
                    assert(r@ =~= t);
                }
            }
        }
        i += 1;
    }
    assert(s@.subrange(0, s@.len() as int) =~= s@);
    r
}

/// The configurations kept for an endpoint: those in the rate range,
/// ordered stably by descending maximum rate then channels, without
/// adjacent repeats.
pub open spec fn collect_configs_spec(cfgs: Seq<AudioConfigInfo>) -> Seq<AudioConfigInfo> {
    dedup_adjacent(sorted_spec(cfgs.filter(|c: AudioConfigInfo| rate_in_range(c))))
}

/// What `dedup_adjacent` keeps: the values of `s`, each value of `s`, no
/// value twice in a row, the last value last, and the order of `s` where
/// `s` is ordered.
proof fn lemma_dedup_adjacent(s: Seq<AudioConfigInfo>)
    ensures
        forall|k: int| 0 <= k < dedup_adjacent(s).len() ==> s.contains(#[trigger] dedup_adjacent(s)[k]),
        forall|k: int| 0 <= k < s.len() ==> dedup_adjacent(s).contains(#[trigger] s[k]),
        forall|k: int|
            0 <= k < dedup_adjacent(s).len() - 1 ==> #[trigger] dedup_adjacent(s)[k] != dedup_adjacent(
                s,
            )[k + 1],
        s.len() > 0 ==> dedup_adjacent(s).len() > 0 && dedup_adjacent(s).last() == s.last(),
        is_sorted(s) ==> is_sorted(dedup_adjacent(s)),
    decreases s.len(),
{
    let d = dedup_adjacent(s);
    if s.len() <= 1 {
        assert forall|k: int| 0 <= k < d.len() implies s.contains(#[trigger] d[k]) by {}
        assert forall|k: int| 0 <= k < s.len() implies d.contains(#[trigger] s[k]) by {}
    } else {
        let p = s.drop_last();
        lemma_dedup_adjacent(p);
        let dp = dedup_adjacent(p);
        assert forall|t: AudioConfigInfo| p.contains(t) implies s.contains(t) by {
            let i = choose|i: int| 0 <= i < p.len() && p[i] == t;
            assert(s[i] == t);
        }
        assert forall|k: int| 0 <= k < dp.len() implies s.contains(#[trigger] dp[k]) by {
            assert(p.contains(dp[k]));
        }
        if is_sorted(s) {
            assert forall|i: int, j: int| 0 <= i < j < p.len() implies !p[j].precedes(&p[i]) by {
                assert(p[i] == s[i] && p[j] == s[j]);
            }
        }
        if s.last() == s[s.len() - 2] {
            assert forall|k: int| 0 <= k < s.len() implies d.contains(#[trigger] s[k]) by {
                if k < s.len() - 1 {
                    assert(s[k] == p[k]);
                } else {
                    assert(dp.last() == p.last());
                    assert(dp.contains(dp[dp.len() - 1]));
                }
            }
        } else {
            assert(d == dp.push(s.last()));
            assert forall|k: int| 0 <= k < d.len() implies s.contains(#[trigger] d[k]) by {
                if k < dp.len() {
                    assert(d[k] == dp[k]);
                } else {
                    assert(s[s.len() - 1] == d[k]);
                }
            }
            assert forall|k: int| 0 <= k < s.len() implies d.contains(#[trigger] s[k]) by {
                if k < s.len() - 1 {
                    assert(s[k] == p[k]);
                    assert(dp.contains(p[k]));
                    let j = choose|j: int| 0 <= j < dp.len() && dp[j] == p[k];
                    assert(d[j] == s[k]);
                } else {
                    assert(d[d.len() - 1] == s[k]);
                }
            }
            assert forall|k: int| 0 <= k < d.len() - 1 implies #[trigger] d[k] != d[k + 1] by {
                if k + 1 < dp.len() {
                    assert(d[k] == dp[k] && d[k + 1] == dp[k + 1]);
                } else {
                    assert(d[k] == dp.last());
                }
            }
            if is_sorted(s) {
                assert forall|i: int, j: int| 0 <= i < j < d.len() implies !d[j].precedes(&d[i]) by {
                    if j < dp.len() {
                        assert(d[i] == dp[i] && d[j] == dp[j]);
                    } else {
                        assert(d[i] == dp[i]);
                        assert(p.contains(dp[i]));
                        let q = choose|q: int| 0 <= q < p.len() && p[q] == dp[i];
                        assert(s[q] == dp[i]);
                        assert(!s[s.len() - 1].precedes(&s[q]));
                    }
                }
            }
        }
    }
}

/// The configurations kept for an endpoint: exactly those whose rates lie
/// between 4 kHz and 768 kHz, highest maximum rate first and then most
/// channels, with no configuration twice in a row.
pub fn collect_configs(cfgs: &Vec<AudioConfigInfo>) -> (r: Vec<AudioConfigInfo>)
    ensures
        r@ == collect_configs_spec(cfgs@),
        forall|k: int|
            0 <= k < r@.len() ==> 4_000 <= (#[trigger] r@[k]).sample_rate_min && r@[k].sample_rate_max
                <= 768_000 && cfgs@.contains(r@[k]),
        forall|k: int|
            0 <= k < cfgs@.len() && 4_000 <= (#[trigger] cfgs@[k]).sample_rate_min
                && cfgs@[k].sample_rate_max <= 768_000 ==> r@.contains(cfgs@[k]),
        forall|i: int, j: int|
            0 <= i < j < r@.len() ==> (#[trigger] r@[i]).sample_rate_max >= (
            #[trigger] r@[j]).sample_rate_max && (r@[i].sample_rate_max == r@[j].sample_rate_max
                ==> r@[i].channels >= r@[j].channels),
        forall|k: int| 0 <= k < r@.len() - 1 ==> #[trigger] r@[k] != r@[k + 1],
{
    let mut kept: Vec<AudioConfigInfo> = Vec::new();
    let mut i: usize = 0;
    while i < cfgs.len()
        invariant
            i <= cfgs@.len(),
            kept@ == cfgs@.subrange(0, i as int).filter(|c: AudioConfigInfo| rate_in_range(c)),
            forall|k: int| 0 <= k < kept@.len() ==> cfgs@.contains(#[trigger] kept@[k]) && rate_in_range(kept@[k]),
            forall|k: int| 0 <= k < i && rate_in_range(#[trigger] cfgs@[k]) ==> kept@.contains(cfgs@[k]),
        decreases cfgs@.len() - i,
    {
        let c = cfgs[i];
        assert(cfgs@.subrange(0, i + 1).drop_last() =~= cfgs@.subrange(0, i as int));
        reveal_with_fuel(Seq::filter, 1);
        let ghost before = kept@;
        if c.sample_rate_min < 4_000 {
        } else if c.sample_rate_max > 768_000 {
        } else {
            kept.push(c);
            proof {
                assert forall|k: int| 0 <= k < i && rate_in_range(#[trigger] cfgs@[k]) implies kept@.contains(cfgs@[k]) by {
                    let j = choose|j: int| 0 <= j < before.len() && before[j] == cfgs@[k];
                    assert(kept@[j] == cfgs@[k]);
                }
                assert(kept@[kept@.len() - 1] == cfgs@[i as int]);
            }
        }
        i += 1;
    }
    assert(cfgs@.subrange(0, cfgs@.len() as int) =~= cfgs@);
    let ghost kv = kept@;
    let sorted = stable_sort(kept);
    let ghost sv = sorted@;
    proof {
        let perm = choose|perm: Seq<int>| arrangement(kv, sv, perm);
        assert forall|k: int| 0 <= k < sv.len() implies cfgs@.contains(#[trigger] sv[k]) && rate_in_range(sv[k]) by {
            assert(sv[k] == kv[perm[k]]);
        }
        assert forall|k: int| 0 <= k < kv.len() implies sv.contains(#[trigger] kv[k]) by {
            lemma_sorted_keeps(kv, k);
        }
        lemma_dedup_adjacent(sv);
    }
    let r = dedup_configs(sorted);
    proof {
        let d = r@;
        assert forall|k: int| 0 <= k < d.len() implies 4_000 <= (#[trigger] d[k]).sample_rate_min
            && d[k].sample_rate_max <= 768_000 && cfgs@.contains(d[k]) by {
            assert(sv.contains(d[k]));
            let j = choose|j: int| 0 <= j < sv.len() && sv[j] == d[k];
            assert(rate_in_range(sv[j]));
        }
        assert forall|k: int|
            0 <= k < cfgs@.len() && 4_000 <= (#[trigger] cfgs@[k]).sample_rate_min
                && cfgs@[k].sample_rate_max <= 768_000 implies d.contains(cfgs@[k]) by {
            assert(rate_in_range(cfgs@[k]));
            let j = choose|j: int| 0 <= j < kv.len() && kv[j] == cfgs@[k];
            assert(sv.contains(kv[j]));
            let q = choose|q: int| 0 <= q < sv.len() && sv[q] == kv[j];
            assert(d.contains(sv[q]));
        }
        assert forall|a: int, b: int| 0 <= a < b < d.len() implies (#[trigger] d[a]).sample_rate_max >= (
            #[trigger] d[b]).sample_rate_max && (d[a].sample_rate_max == d[b].sample_rate_max
                ==> d[a].channels >= d[b].channels) by {
            assert(!d[b].precedes(&d[a]));
        }
    }
    r
}

fn copy_configs(v: &Vec<AudioConfigInfo>) -> (r: Vec<AudioConfigInfo>)
    ensures
        r@ == v@,
{
    let mut r: Vec<AudioConfigInfo> = Vec::new();
    let mut i: usize = 0;
    while i < v.len()
        invariant
            i <= v@.len(),
            r@ == v@.subrange(0, i as int),
        decreases v@.len() - i,
    {
        r.push(v[i]);
        i += 1;
        assert(r@ =~= v@.subrange(0, i as int));
    }
    assert(v@.subrange(0, v@.len() as int) =~= v@);
    r
}

/// `dev` is what a reported endpoint becomes.
pub open spec fn raw_device_matches(
    rep: AudioEndpointReport,
    default_id: Option<String>,
    dev: AudioDeviceInfo,
) -> bool {
    let id = match rep.id {
        Some(i) => i@,
        None => rep.name@,
    };
    &&& dev.id@ == id
    &&& dev.name@ == rep.name@
    &&& dev.kind == rep.kind
    &&& dev.default == (default_id matches Some(d) && d@ == id)
    &&& dev.is_physical
    &&& dev.configs@ == collect_configs_spec(rep.configs@)
}

/// The listed device for a reported endpoint, `None` when it is not physical.
pub fn raw_device(rep: &AudioEndpointReport, default_id: &Option<String>) -> (r: Option<
    AudioDeviceInfo,
>)
    ensures
        r is Some <==> is_physical_spec(
            rep.name@,
            match rep.id {
                Some(i) => i@,
                None => rep.name@,
            },
        ),
        r matches Some(dev) ==> raw_device_matches(*rep, *default_id, dev),
{
    let id: String = match &rep.id {
        Some(i) => i.clone(),
        None => rep.name.clone(),
    };
    if !is_physical_device(rep.name.as_str(), id.as_str()) {
        return None;
    }
    let default = match default_id {
        Some(d) => d.eq(&id),
        None => false,
    };
    Some(
        AudioDeviceInfo {
            id,
            name: rep.name.clone(),
            kind: rep.kind,
            default,
            is_physical: true,
            configs: collect_configs(&rep.configs),
        },
    )
}

/// The scalar fields of a device entry after taking in the endpoint `d` of its
/// group: default if either is, physical if either is, and the id of `d` if
/// that addresses the hardware more directly. The configurations that the
/// entry then holds are `absorb_configs`; this value keeps those of `e`.
pub open spec fn absorb(e: AudioDeviceInfo, d: AudioDeviceInfo) -> AudioDeviceInfo {
    AudioDeviceInfo {
        id: if endpoint_score_spec(d.id@) > endpoint_score_spec(e.id@) {
            d.id
        } else {
            e.id
        },
        name: e.name,
        kind: e.kind,
        default: e.default || d.default,
        is_physical: e.is_physical || is_physical_spec(d.name@, d.id@),
        configs: e.configs,
    }
}

/// The configurations of an entry after taking in `d`.
pub open spec fn absorb_configs(e: Seq<AudioConfigInfo>, d: Seq<AudioConfigInfo>) -> Seq<
    AudioConfigInfo,
> {
    dedup_adjacent(sorted_spec(e + d))
}

/// `m` is the entry `e` after taking in `d`.
pub open spec fn absorbed(e: AudioDeviceInfo, d: AudioDeviceInfo, m: AudioDeviceInfo) -> bool {
    let a = absorb(e, d);
    &&& m.id@ == a.id@
    &&& m.name@ == e.name@
    &&& m.kind == a.kind
    &&& m.default == a.default
    &&& m.is_physical == a.is_physical
    &&& m.configs@ == absorb_configs(e.configs@, d.configs@)
}

/// The index of the first entry whose name has grouping key `key`.
pub open spec fn find_group(keys: Seq<Seq<char>>, key: Seq<char>) -> int
    decreases keys.len(),
{
    if keys.len() == 0 {
        -1
    } else if keys.last() == key && find_group(keys.drop_last(), key) == -1 {
        keys.len() - 1
    } else {
        find_group(keys.drop_last(), key)
    }
}

fn copy_device(d: &AudioDeviceInfo) -> (r: AudioDeviceInfo)
    ensures
        r.id@ == d.id@,
        r.name@ == d.name@,
        r.kind == d.kind,
        r.default == d.default,
        r.is_physical == d.is_physical,
        r.configs@ == d.configs@,
{
    AudioDeviceInfo {
        id: d.id.clone(),
        name: d.name.clone(),
        kind: d.kind,
        default: d.default,
        is_physical: d.is_physical,
        configs: copy_configs(&d.configs),
    }
}

fn concat_configs(a: &Vec<AudioConfigInfo>, b: &Vec<AudioConfigInfo>) -> (r: Vec<AudioConfigInfo>)
    ensures
        r@ == a@ + b@,
{
    let mut r = copy_configs(a);
    let mut i: usize = 0;
    while i < b.len()
        invariant
            i <= b@.len(),
            r@ == a@ + b@.subrange(0, i as int),
        decreases b@.len() - i,
    {
        r.push(b[i]);
        i += 1;
        assert(r@ =~= a@ + b@.subrange(0, i as int));
    }
    assert(b@.subrange(0, b@.len() as int) =~= b@);
    r
}

/// The entry `e` after taking in the endpoint `d`.
pub fn absorb_device(e: &AudioDeviceInfo, d: &AudioDeviceInfo) -> (r: AudioDeviceInfo)
    ensures
        absorbed(*e, *d, r),
{
    let both = concat_configs(&e.configs, &d.configs);
    let sorted = stable_sort(both);
    let configs = dedup_configs(sorted);
    let id = if endpoint_score(d.id.as_str()) > endpoint_score(e.id.as_str()) {
        d.id.clone()
    } else {
        e.id.clone()
    };
    AudioDeviceInfo {
        id,
        name: e.name.clone(),
        kind: e.kind,
        default: e.default || d.default,
        is_physical: e.is_physical || is_physical_device(d.name.as_str(), d.id.as_str()),
        configs,
    }
}

fn same_chars(a: &Vec<char>, b: &Vec<char>) -> (r: bool)
    ensures
        r == (a@ == b@),
{
    if a.len() != b.len() {
        return false;
    }
    let mut i: usize = 0;
    while i < a.len()
        invariant
            a@.len() == b@.len(),
            i <= a@.len(),
            forall|j: int| 0 <= j < i ==> a@[j] == b@[j],
        decreases a@.len() - i,
    {
        if a[i] != b[i] {
            return false;
        }
        i += 1;
    }
    assert(a@ =~= b@);
    true
}

/// One merge step: the entries `groups` with keys `keys` after taking in the
/// endpoint `d` into the entries `pg` with keys `pk` (the first entry with
/// the same grouping key takes it in; if there is none, `d` starts a new
/// entry at the end).
pub open spec fn merge_step(
    pg: Seq<AudioDeviceInfo>,
    pk: Seq<Seq<char>>,
    d: AudioDeviceInfo,
    groups: Seq<AudioDeviceInfo>,
    keys: Seq<Seq<char>>,
) -> bool {
    let j = find_group(pk, group_key_spec(d.name@));
    if j >= 0 {
        &&& keys == pk
        &&& groups.len() == pg.len()
        &&& forall|i: int| 0 <= i < groups.len() && i != j ==> #[trigger] groups[i] == pg[i]
        &&& absorbed(pg[j], d, groups[j])
    } else {
        &&& keys == pk.push(group_key_spec(d.name@))
        &&& groups.len() == pg.len() + 1
        &&& forall|i: int| 0 <= i < pg.len() ==> #[trigger] groups[i] == pg[i]
        &&& absorbed(d, d, groups[pg.len() as int])
    }
}

/// Entries `groups` with keys `keys` hold the merge of the endpoints `raw`:
/// starting from no entries, each endpoint in order is taken in by
/// `merge_step`.
pub open spec fn merged_groups(
    raw: Seq<AudioDeviceInfo>,
    groups: Seq<AudioDeviceInfo>,
    keys: Seq<Seq<char>>,
) -> bool {
    exists|tg: Seq<Seq<AudioDeviceInfo>>, tk: Seq<Seq<Seq<char>>>|
        #![trigger tg[raw.len() as int], tk[raw.len() as int]]
        {
            &&& tg.len() == raw.len() + 1
            &&& tk.len() == raw.len() + 1
            &&& tg[0].len() == 0
            &&& tk[0].len() == 0
            &&& tg[raw.len() as int] == groups
            &&& tk[raw.len() as int] == keys
            &&& forall|i: int|
                0 <= i < raw.len() ==> merge_step(
                    #[trigger] tg[i],
                    tk[i],
                    raw[i],
                    tg[i + 1],
                    tk[i + 1],
                )
        }
}

proof fn lemma_merged_step(
    raw: Seq<AudioDeviceInfo>,
    groups: Seq<AudioDeviceInfo>,
    keys: Seq<Seq<char>>,
    pg: Seq<AudioDeviceInfo>,
    pk: Seq<Seq<char>>,
)
    requires
        raw.len() > 0,
        merged_groups(raw.drop_last(), pg, pk),
        merge_step(pg, pk, raw.last(), groups, keys),
    ensures
        merged_groups(raw, groups, keys),
{
    let n = raw.len() - 1;
    let (tg, tk) = choose|tg: Seq<Seq<AudioDeviceInfo>>, tk: Seq<Seq<Seq<char>>>|
        {
            &&& tg.len() == raw.drop_last().len() + 1
            &&& tk.len() == raw.drop_last().len() + 1
            &&& tg[0].len() == 0
            &&& tk[0].len() == 0
            &&& tg[raw.drop_last().len() as int] == pg
            &&& tk[raw.drop_last().len() as int] == pk
            &&& forall|i: int|
                0 <= i < raw.drop_last().len() ==> merge_step(
                    #[trigger] tg[i],
                    tk[i],
                    raw.drop_last()[i],
                    tg[i + 1],
                    tk[i + 1],
                )
        };
    let tg2 = tg.push(groups);
    let tk2 = tk.push(keys);
    assert forall|i: int| 0 <= i < raw.len() implies merge_step(
        #[trigger] tg2[i],
        tk2[i],
        raw[i],
        tg2[i + 1],
        tk2[i + 1],
    ) by {
        if i < n {
            assert(tg2[i] == tg[i] && tg2[i + 1] == tg[i + 1]);
            assert(tk2[i] == tk[i] && tk2[i + 1] == tk[i + 1]);
            assert(raw[i] == raw.drop_last()[i]);
        } else {
            assert(tg2[i] == pg && tk2[i] == pk);
        }
    }
    assert(tg2[raw.len() as int] == groups && tk2[raw.len() as int] == keys);
    assert(tg2[0] == tg[0] && tk2[0] == tk[0]);
}

proof fn lemma_merged_empty()
    ensures
        merged_groups(Seq::empty(), Seq::empty(), Seq::empty()),
{
    let tg = seq![Seq::<AudioDeviceInfo>::empty()];
    let tk = seq![Seq::<Seq<char>>::empty()];
    assert(tg[0].len() == 0);
    assert(tg[0] == Seq::<AudioDeviceInfo>::empty() && tk[0] == Seq::<Seq<char>>::empty());
}

proof fn lemma_find_group_bounds(keys: Seq<Seq<char>>, key: Seq<char>)
    ensures
        -1 <= find_group(keys, key) < keys.len(),
        find_group(keys, key) >= 0 ==> keys[find_group(keys, key)] == key,
        find_group(keys, key) == -1 ==> forall|i: int| 0 <= i < keys.len() ==> keys[i] != key,
    decreases keys.len(),
{
    if keys.len() > 0 {
        lemma_find_group_bounds(keys.drop_last(), key);
        assert forall|i: int| 0 <= i < keys.len() - 1 implies keys[i] == keys.drop_last()[i] by {}
    }
}

/// Merges the endpoints of each device into one entry.
pub fn merge_devices(raw: &Vec<AudioDeviceInfo>) -> (r: Vec<AudioDeviceInfo>)
    ensures
        exists|keys: Seq<Seq<char>>| merged_groups(raw@, r@, keys),
{
    let mut groups: Vec<AudioDeviceInfo> = Vec::new();
    let mut keys: Vec<Vec<char>> = Vec::new();
    let mut i: usize = 0;
    let ghost mut kv: Seq<Seq<char>> = Seq::empty();
    proof {
        lemma_merged_empty();
        assert(raw@.subrange(0, 0) =~= Seq::<AudioDeviceInfo>::empty());
        assert(groups@ =~= Seq::<AudioDeviceInfo>::empty());
    }
    while i < raw.len()
        invariant
            i <= raw@.len(),
            keys@.len() == kv.len(),
            forall|j: int| 0 <= j < kv.len() ==> #[trigger] keys@[j]@ == kv[j],
            merged_groups(raw@.subrange(0, i as int), groups@, kv),
            groups@.len() == kv.len(),
        decreases raw@.len() - i,
    {
        let d = &raw[i];
        let key = device_group_key(d.name.as_str());
        let ghost pg = groups@;
        let ghost pk = kv;
        // the first entry with this key
        let mut j: usize = 0;
        let mut found = false;
        while j < keys.len() && !found
            invariant
                j <= keys@.len(),
                keys@.len() == kv.len(),
                forall|q: int| 0 <= q < kv.len() ==> #[trigger] keys@[q]@ == kv[q],
                found ==> j < keys@.len() && kv[j as int] == key@,
                forall|q: int| 0 <= q < j ==> kv[q] != key@,
            decreases keys@.len() - j + (if found { 0int } else { 1int }),
        {
            if same_chars(&keys[j], &key) {
                found = true;
            } else {
                j += 1;
            }
        }
        proof {
            lemma_find_group_bounds(kv, key@);
            if found {
                lemma_first_index(kv, key@, j as int);
            } else {
                assert forall|q: int| 0 <= q < kv.len() implies kv[q] != key@ by {}
                lemma_no_index(kv, key@);
            }
        }
        let ghost next = raw@.subrange(0, i + 1);
        assert(next.drop_last() =~= raw@.subrange(0, i as int));
        assert(next.last() == raw@[i as int]);
        if found {
            let m = absorb_device(&groups[j], d);
            groups.set(j, m);
            proof {
                let dd = next.last();
                assert(dd == raw@[i as int]);
                assert(find_group(pk, group_key_spec(dd.name@)) == j);
                assert(groups@.len() == pg.len());
                assert(forall|q: int| 0 <= q < groups@.len() && q != j ==> groups@[q] == pg[q]);
                assert(absorbed(pg[j as int], dd, groups@[j as int]));
                assert(merged_groups(next.drop_last(), pg, pk));
                lemma_merged_step(next, groups@, kv, pg, pk);
            }
        } else {
            let first = copy_device(d);
            let m = absorb_device(&first, d);
            groups.push(m);
            keys.push(key);
            proof {
                kv = pk.push(key@);
                assert(merged_groups(next.drop_last(), pg, pk));
                let dd = next.last();
                assert(find_group(pk, group_key_spec(dd.name@)) == -1);
                assert(absorbed(dd, dd, groups@[pg.len() as int]));
                assert(forall|q: int| 0 <= q < pg.len() ==> groups@[q] == pg[q]);
                assert(kv == pk.push(group_key_spec(dd.name@)));
                assert(merged_groups(next.drop_last(), pg, pk));
                lemma_merged_step(next, groups@, kv, pg, pk);
            }
        }
        i += 1;
    }
    assert(raw@.subrange(0, raw@.len() as int) =~= raw@);
    groups
}

proof fn lemma_first_index(keys: Seq<Seq<char>>, key: Seq<char>, j: int)
    requires
        0 <= j < keys.len(),
        keys[j] == key,
        forall|q: int| 0 <= q < j ==> keys[q] != key,
    ensures
        find_group(keys, key) == j,
    decreases keys.len(),
{
    if j < keys.len() - 1 {
        lemma_first_index(keys.drop_last(), key, j);
    } else {
        lemma_no_index(keys.drop_last(), key);
    }
}

proof fn lemma_no_index(keys: Seq<Seq<char>>, key: Seq<char>)
    requires
        forall|q: int| 0 <= q < keys.len() ==> keys[q] != key,
    ensures
        find_group(keys, key) == -1,
    decreases keys.len(),
{
    if keys.len() > 0 {
        lemma_no_index(keys.drop_last(), key);
    }
}


/// The entries of a merge trace keep one key each, all different, each the
/// grouping key of the entry's name.
pub open spec fn keyed_apart(groups: Seq<AudioDeviceInfo>, keys: Seq<Seq<char>>) -> bool {
    &&& keys.len() == groups.len()
    &&& forall|a: int, b: int| 0 <= a < b < keys.len() ==> keys[a] != keys[b]
    &&& forall|g: int| 0 <= g < keys.len() ==> keys[g] == group_key_spec(#[trigger] groups[g].name@)
}

proof fn lemma_merge_step_keyed(
    pg: Seq<AudioDeviceInfo>,
    pk: Seq<Seq<char>>,
    d: AudioDeviceInfo,
    groups: Seq<AudioDeviceInfo>,
    keys: Seq<Seq<char>>,
)
    requires
        keyed_apart(pg, pk),
        merge_step(pg, pk, d, groups, keys),
    ensures
        keyed_apart(groups, keys),
{
    lemma_find_group_bounds(pk, group_key_spec(d.name@));
    let j = find_group(pk, group_key_spec(d.name@));
    if j >= 0 {
        assert forall|g: int| 0 <= g < keys.len() implies keys[g] == group_key_spec(
            #[trigger] groups[g].name@,
        ) by {
            if g != j {
                assert(groups[g] == pg[g]);
            }
        }
    } else {
        assert forall|g: int| 0 <= g < keys.len() implies keys[g] == group_key_spec(
            #[trigger] groups[g].name@,
        ) by {
            if g < pg.len() {
                assert(groups[g] == pg[g]);
            }
        }
    }
}

proof fn lemma_merged_keyed(raw: Seq<AudioDeviceInfo>, groups: Seq<AudioDeviceInfo>, keys: Seq<Seq<char>>)
    requires
        merged_groups(raw, groups, keys),
    ensures
        keyed_apart(groups, keys),
{
    let (tg, tk) = choose|tg: Seq<Seq<AudioDeviceInfo>>, tk: Seq<Seq<Seq<char>>>|
        #![trigger tg[raw.len() as int], tk[raw.len() as int]]
        {
            &&& tg.len() == raw.len() + 1
            &&& tk.len() == raw.len() + 1
            &&& tg[0].len() == 0
            &&& tk[0].len() == 0
            &&& tg[raw.len() as int] == groups
            &&& tk[raw.len() as int] == keys
            &&& forall|i: int|
                0 <= i < raw.len() ==> merge_step(
                    #[trigger] tg[i],
                    tk[i],
                    raw[i],
                    tg[i + 1],
                    tk[i + 1],
                )
        };
    lemma_trace_keyed(raw, tg, tk, raw.len() as int);
}

proof fn lemma_trace_keyed(
    raw: Seq<AudioDeviceInfo>,
    tg: Seq<Seq<AudioDeviceInfo>>,
    tk: Seq<Seq<Seq<char>>>,
    i: int,
)
    requires
        0 <= i <= raw.len(),
        tg.len() == raw.len() + 1,
        tk.len() == raw.len() + 1,
        tg[0].len() == 0,
        tk[0].len() == 0,
        forall|q: int|
            0 <= q < raw.len() ==> merge_step(#[trigger] tg[q], tk[q], raw[q], tg[q + 1], tk[q + 1]),
    ensures
        keyed_apart(tg[i], tk[i]),
    decreases i,
{
    if i > 0 {
        lemma_trace_keyed(raw, tg, tk, i - 1);
        lemma_merge_step_keyed(tg[i - 1], tk[i - 1], raw[i - 1], tg[i], tk[i]);
    }
}

/// Every device appears once in the audio list: no two entries have names
/// with the same grouping key, since the endpoints of one device are merged.
pub proof fn law_audio_list_one_entry_per_device(
    inputs: Seq<AudioEndpointReport>,
    default_input: Option<String>,
    outputs: Seq<AudioEndpointReport>,
    default_output: Option<String>,
    list: Seq<AudioDeviceInfo>,
)
    requires
        audio_list_spec(inputs, default_input, outputs, default_output, list),
    ensures
        forall|a: int, b: int|
            0 <= a < b < list.len() ==> group_key_spec(list[a].name@) != group_key_spec(
                list[b].name@,
            ),
{
    let (raw, groups, keys) = choose|
        raw: Seq<AudioDeviceInfo>,
        groups: Seq<AudioDeviceInfo>,
        keys: Seq<Seq<char>>,
    |
        {
            &&& raw_devices(inputs, default_input, outputs, default_output, raw)
            &&& merged_groups(raw, groups, keys)
            &&& list == sorted_spec(groups)
            &&& stably_sorted(groups, list)
        };
    lemma_merged_keyed(raw, groups, keys);
    let perm = choose|perm: Seq<int>| arrangement(groups, list, perm);
    assert forall|a: int, b: int| 0 <= a < b < list.len() implies group_key_spec(list[a].name@)
        != group_key_spec(list[b].name@) by {
        let pa = perm[a];
        let pb = perm[b];
        assert(list[a] == groups[pa]);
        assert(list[b] == groups[pb]);
        assert(pa != pb);
        assert(keys[pa] == group_key_spec(groups[pa].name@));
        assert(keys[pb] == group_key_spec(groups[pb].name@));
        if pa < pb {
            assert(keys[pa] != keys[pb]);
        } else {
            assert(keys[pb] != keys[pa]);
        }
    }
}

/// The order of kinds: inputs before outputs.
pub open spec fn kind_rank(k: AudioDeviceType) -> int {
    match k {
        AudioDeviceType::Input => 0,
        AudioDeviceType::Output => 1,
    }
}

impl Ranked for AudioDeviceInfo {
    /// Inputs before outputs, physical devices first, then by name.
    open spec fn precedes(&self, other: &Self) -> bool {
        kind_rank(self.kind) < kind_rank(other.kind) || (kind_rank(self.kind) == kind_rank(
            other.kind,
        ) && ((self.is_physical && !other.is_physical) || (self.is_physical == other.is_physical
            && lex_lt(self.name@, other.name@))))
    }

    proof fn precedes_irreflexive(a: &Self) {
        lemma_lex_irreflexive(a.name@);
    }

    proof fn precedes_transitive(a: &Self, b: &Self, c: &Self) {
        if a.name@ != c.name@ && lex_lt(a.name@, b.name@) && lex_lt(b.name@, c.name@) {
            lemma_lex_transitive(a.name@, b.name@, c.name@);
        }
        if lex_lt(a.name@, b.name@) && lex_lt(b.name@, c.name@) {
            lemma_lex_transitive(a.name@, b.name@, c.name@);
        }
    }

    proof fn tie_transitive(a: &Self, b: &Self, c: &Self) {
        lemma_lex_total(a.name@, b.name@);
        lemma_lex_total(b.name@, c.name@);
        lemma_lex_irreflexive(a.name@);
    }

    fn goes_before(&self, other: &Self) -> (r: bool) {
        let ka: u8 = match self.kind {
            AudioDeviceType::Input => 0,
            AudioDeviceType::Output => 1,
        };
        let kb: u8 = match other.kind {
            AudioDeviceType::Input => 0,
            AudioDeviceType::Output => 1,
        };
        if ka != kb {
            ka < kb
        } else if self.is_physical != other.is_physical {
            self.is_physical
        } else {
            let x = chars_of(self.name.as_str());
            let y = chars_of(other.name.as_str());
            lex_less(x.as_slice(), y.as_slice())
        }
    }
}

/// The audio device list: the physical endpoints, inputs then outputs as
/// reported, merged per device, ordered stably.
pub fn audio_list(
    inputs: &Vec<AudioEndpointReport>,
    default_input: &Option<String>,
    outputs: &Vec<AudioEndpointReport>,
    default_output: &Option<String>,
) -> (r: Vec<AudioDeviceInfo>)
    ensures
        audio_list_spec(inputs@, *default_input, outputs@, *default_output, r@),
{
    let mut raw: Vec<AudioDeviceInfo> = Vec::new();
    let mut i: usize = 0;
    while i < inputs.len()
        invariant
            i <= inputs@.len(),
            raw_from(inputs@.subrange(0, i as int), *default_input, raw@),
        decreases inputs@.len() - i,
    {
        let ghost pre = raw@;
        assert(inputs@.subrange(0, i + 1).drop_last() =~= inputs@.subrange(0, i as int));
        match raw_device(&inputs[i], default_input) {
            Some(dev) => {
                raw.push(dev);
                assert(raw@.drop_last() =~= pre);
            },
            None => {},
        }
        i += 1;
    }
    assert(inputs@.subrange(0, inputs@.len() as int) =~= inputs@);
    let ghost from_inputs = raw@;
    let mut o: usize = 0;
    let mut out_raw: Vec<AudioDeviceInfo> = Vec::new();
    while o < outputs.len()
        invariant
            o <= outputs@.len(),
            raw_from(outputs@.subrange(0, o as int), *default_output, out_raw@),
        decreases outputs@.len() - o,
    {
        let ghost pre = out_raw@;
        assert(outputs@.subrange(0, o + 1).drop_last() =~= outputs@.subrange(0, o as int));
        match raw_device(&outputs[o], default_output) {
            Some(dev) => {
                out_raw.push(dev);
                assert(out_raw@.drop_last() =~= pre);
            },
            None => {},
        }
        o += 1;
    }
    assert(outputs@.subrange(0, outputs@.len() as int) =~= outputs@);
    let ghost from_outputs = out_raw@;
    raw.append(&mut out_raw);
    assert(raw_devices(inputs@, *default_input, outputs@, *default_output, raw@));
    let groups = merge_devices(&raw);
    let ghost gv = groups@;
    let r = stable_sort(groups);
    r
}

/// `list` is the audio device list for the reported endpoints: the physical
/// ones, inputs then outputs, merged per device, ordered stably.
pub open spec fn audio_list_spec(
    inputs: Seq<AudioEndpointReport>,
    default_input: Option<String>,
    outputs: Seq<AudioEndpointReport>,
    default_output: Option<String>,
    list: Seq<AudioDeviceInfo>,
) -> bool {
    exists|raw: Seq<AudioDeviceInfo>, groups: Seq<AudioDeviceInfo>, keys: Seq<Seq<char>>|
        {
            &&& raw_devices(inputs, default_input, outputs, default_output, raw)
            &&& merged_groups(raw, groups, keys)
            &&& list == sorted_spec(groups)
            &&& stably_sorted(groups, list)
        }
}

/// `devs` are the listed devices for the reported endpoints `reps`, in order.
pub open spec fn raw_from(
    reps: Seq<AudioEndpointReport>,
    default_id: Option<String>,
    devs: Seq<AudioDeviceInfo>,
) -> bool
    decreases reps.len(),
{
    if reps.len() == 0 {
        devs.len() == 0
    } else {
        let rep = reps.last();
        let id = match rep.id {
            Some(i) => i@,
            None => rep.name@,
        };
        if is_physical_spec(rep.name@, id) {
            devs.len() > 0 && raw_from(reps.drop_last(), default_id, devs.drop_last())
                && raw_device_matches(rep, default_id, devs.last())
        } else {
            raw_from(reps.drop_last(), default_id, devs)
        }
    }
}

/// `raw` holds the listed devices of the inputs, then those of the outputs.
pub open spec fn raw_devices(
    inputs: Seq<AudioEndpointReport>,
    default_input: Option<String>,
    outputs: Seq<AudioEndpointReport>,
    default_output: Option<String>,
    raw: Seq<AudioDeviceInfo>,
) -> bool {
    exists|a: Seq<AudioDeviceInfo>, b: Seq<AudioDeviceInfo>|
        raw == a + b && raw_from(inputs, default_input, a) && raw_from(outputs, default_output, b)
}

/// The id an endpoint is known by: its own id, or its name where the host
/// gives none.
pub open spec fn report_id(rep: AudioEndpointReport) -> Seq<char> {
    match rep.id {
        Some(i) => i@,
        None => rep.name@,
    }
}

/// An endpoint is virtual, and never listed as a device, exactly when its
/// lowercased name or id mentions a monitor, null, dummy or loopback
/// endpoint, a sound server (PulseAudio, PipeWire, JACK, OSS) or a
/// processing plugin (rate converter, Speex, FFmpeg, up- and downmix,
/// discard, spatialization, resampler, USB stream).
pub proof fn law_virtual_endpoints(name: Seq<char>, id: Seq<char>)
    ensures
        ({
            let words = seq![
                "monitor"@,
                "null"@,
                "dummy"@,
                "loopback"@,
                "pulse"@,
                "pipewire"@,
                "jack"@,
                "oss"@,
                "plugin"@,
                "rate converter"@,
                "speex"@,
                "ffmpeg"@,
                "upmix"@,
                "downmix"@,
                "discard"@,
                "spatialization"@,
                "resampler"@,
                "usbstream"@,
            ];
            !is_physical_spec(name, id) <==> exists|k: int|
                0 <= k < words.len() && (has_infix(lowercase(name), #[trigger] words[k]) || has_infix(
                    lowercase(id),
                    words[k],
                ))
        }),
{
    let words = seq![
        "monitor"@,
        "null"@,
        "dummy"@,
        "loopback"@,
        "pulse"@,
        "pipewire"@,
        "jack"@,
        "oss"@,
        "plugin"@,
        "rate converter"@,
        "speex"@,
        "ffmpeg"@,
        "upmix"@,
        "downmix"@,
        "discard"@,
        "spatialization"@,
        "resampler"@,
        "usbstream"@,
    ];
    assert(words =~= virtual_markers());
}

/// The devices taken from reported endpoints are physical endpoints among
/// them, with their names.
proof fn lemma_raw_from_physical(
    reps: Seq<AudioEndpointReport>,
    default_id: Option<String>,
    devs: Seq<AudioDeviceInfo>,
)
    requires
        raw_from(reps, default_id, devs),
    ensures
        forall|k: int|
            0 <= k < devs.len() ==> exists|r: int|
                0 <= r < reps.len() && reps[r].name@ == (#[trigger] devs[k]).name@ && is_physical_spec(
                    reps[r].name@,
                    report_id(reps[r]),
                ),
    decreases reps.len(),
{
    if reps.len() > 0 {
        let rep = reps.last();
        let p = reps.drop_last();
        if is_physical_spec(rep.name@, report_id(rep)) {
            lemma_raw_from_physical(p, default_id, devs.drop_last());
            assert forall|k: int| 0 <= k < devs.len() implies exists|r: int|
                0 <= r < reps.len() && reps[r].name@ == (#[trigger] devs[k]).name@ && is_physical_spec(
                    reps[r].name@,
                    report_id(reps[r]),
                ) by {
                if k < devs.len() - 1 {
                    assert(devs[k] == devs.drop_last()[k]);
                    let r = choose|r: int|
                        0 <= r < p.len() && p[r].name@ == devs.drop_last()[k].name@ && is_physical_spec(
                            p[r].name@,
                            report_id(p[r]),
                        );
                    assert(reps[r] == p[r]);
                } else {
                    assert(reps[reps.len() - 1] == rep);
                }
            }
        } else {
            lemma_raw_from_physical(p, default_id, devs);
            assert forall|k: int| 0 <= k < devs.len() implies exists|r: int|
                0 <= r < reps.len() && reps[r].name@ == (#[trigger] devs[k]).name@ && is_physical_spec(
                    reps[r].name@,
                    report_id(reps[r]),
                ) by {
                let r = choose|r: int|
                    0 <= r < p.len() && p[r].name@ == devs[k].name@ && is_physical_spec(
                        p[r].name@,
                        report_id(p[r]),
                    );
                assert(reps[r] == p[r]);
            }
        }
    }
}

/// Each entry of a merge trace is named after one of the merged devices.
proof fn lemma_trace_names(
    raw: Seq<AudioDeviceInfo>,
    tg: Seq<Seq<AudioDeviceInfo>>,
    tk: Seq<Seq<Seq<char>>>,
    i: int,
)
    requires
        0 <= i <= raw.len(),
        tg.len() == raw.len() + 1,
        tk.len() == raw.len() + 1,
        tg[0].len() == 0,
        tk[0].len() == 0,
        forall|q: int|
            0 <= q < raw.len() ==> merge_step(#[trigger] tg[q], tk[q], raw[q], tg[q + 1], tk[q + 1]),
    ensures
        forall|g: int|
            0 <= g < tg[i].len() ==> exists|k: int|
                0 <= k < raw.len() && raw[k].name@ == (#[trigger] tg[i][g]).name@,
    decreases i,
{
    if i > 0 {
        lemma_trace_names(raw, tg, tk, i - 1);
        let pg = tg[i - 1];
        let d = raw[i - 1];
        assert(merge_step(tg[i - 1], tk[i - 1], raw[i - 1], tg[i], tk[i]));
        let j = find_group(tk[i - 1], group_key_spec(d.name@));
        assert forall|g: int| 0 <= g < tg[i].len() implies exists|k: int|
            0 <= k < raw.len() && raw[k].name@ == (#[trigger] tg[i][g]).name@ by {
            if j >= 0 {
                if g != j {
                    assert(tg[i][g] == pg[g]);
                }
                assert(tg[i][g].name@ == pg[g].name@);
                let k = choose|k: int| 0 <= k < raw.len() && raw[k].name@ == (#[trigger] pg[g]).name@;
            } else if g < pg.len() {
                assert(tg[i][g] == pg[g]);
                let k = choose|k: int| 0 <= k < raw.len() && raw[k].name@ == (#[trigger] pg[g]).name@;
            } else {
                assert(tg[i][g].name@ == raw[i - 1].name@);
            }
        }
    }
}

/// Every entry of the audio device list is named after a reported endpoint
/// that is physical: an endpoint that is virtual, such as the PulseAudio
/// server, never becomes an entry of its own, and a report of virtual
/// endpoints alone gives an empty list.
pub proof fn law_audio_list_physical_only(
    inputs: Seq<AudioEndpointReport>,
    default_input: Option<String>,
    outputs: Seq<AudioEndpointReport>,
    default_output: Option<String>,
    list: Seq<AudioDeviceInfo>,
)
    requires
        audio_list_spec(inputs, default_input, outputs, default_output, list),
    ensures
        forall|e: int|
            0 <= e < list.len() ==> exists|r: int|
                0 <= r < (inputs + outputs).len() && (inputs + outputs)[r].name@ == (
                #[trigger] list[e]).name@ && is_physical_spec(
                    (inputs + outputs)[r].name@,
                    report_id((inputs + outputs)[r]),
                ),
        (forall|r: int|
            0 <= r < (inputs + outputs).len() ==> !is_physical_spec(
                (#[trigger] (inputs + outputs)[r]).name@,
                report_id((inputs + outputs)[r]),
            )) ==> list.len() == 0,
{
    let (raw, groups, keys) = choose|
        raw: Seq<AudioDeviceInfo>,
        groups: Seq<AudioDeviceInfo>,
        keys: Seq<Seq<char>>,
    |
        {
            &&& raw_devices(inputs, default_input, outputs, default_output, raw)
            &&& merged_groups(raw, groups, keys)
            &&& list == sorted_spec(groups)
            &&& stably_sorted(groups, list)
        };
    let all = inputs + outputs;
    let (a, b) = choose|a: Seq<AudioDeviceInfo>, b: Seq<AudioDeviceInfo>|
        raw == a + b && raw_from(inputs, default_input, a) && raw_from(outputs, default_output, b);
    lemma_raw_from_physical(inputs, default_input, a);
    lemma_raw_from_physical(outputs, default_output, b);
    assert forall|k: int| 0 <= k < raw.len() implies exists|r: int|
        0 <= r < all.len() && all[r].name@ == (#[trigger] raw[k]).name@ && is_physical_spec(
            all[r].name@,
            report_id(all[r]),
        ) by {
        if k < a.len() {
            assert(raw[k] == a[k]);
            let r = choose|r: int|
                0 <= r < inputs.len() && inputs[r].name@ == (#[trigger] a[k]).name@ && is_physical_spec(
                    inputs[r].name@,
                    report_id(inputs[r]),
                );
            assert(all[r] == inputs[r]);
        } else {
            assert(raw[k] == b[k - a.len()]);
            let r = choose|r: int|
                0 <= r < outputs.len() && outputs[r].name@ == (#[trigger] b[k - a.len()]).name@
                    && is_physical_spec(outputs[r].name@, report_id(outputs[r]));
            assert(all[inputs.len() + r] == outputs[r]);
        }
    }
    let (tg, tk) = choose|tg: Seq<Seq<AudioDeviceInfo>>, tk: Seq<Seq<Seq<char>>>|
        #![trigger tg[raw.len() as int], tk[raw.len() as int]]
        {
            &&& tg.len() == raw.len() + 1
            &&& tk.len() == raw.len() + 1
            &&& tg[0].len() == 0
            &&& tk[0].len() == 0
            &&& tg[raw.len() as int] == groups
            &&& tk[raw.len() as int] == keys
            &&& forall|i: int|
                0 <= i < raw.len() ==> merge_step(
                    #[trigger] tg[i],
                    tk[i],
                    raw[i],
                    tg[i + 1],
                    tk[i + 1],
                )
        };
    lemma_trace_names(raw, tg, tk, raw.len() as int);
    let perm = choose|perm: Seq<int>| arrangement(groups, list, perm);
    assert forall|e: int| 0 <= e < list.len() implies exists|r: int|
        0 <= r < all.len() && all[r].name@ == (#[trigger] list[e]).name@ && is_physical_spec(
            all[r].name@,
            report_id(all[r]),
        ) by {
        let g = perm[e];
        assert(list[e] == groups[g]);
        let k = choose|k: int| 0 <= k < raw.len() && raw[k].name@ == (#[trigger] groups[g]).name@;
        let r = choose|r: int|
            0 <= r < all.len() && all[r].name@ == (#[trigger] raw[k]).name@ && is_physical_spec(
                all[r].name@,
                report_id(all[r]),
            );
    }
    if list.len() > 0 && (forall|r: int|
        0 <= r < all.len() ==> !is_physical_spec(
            (#[trigger] all[r]).name@,
            report_id(all[r]),
        )) {
        assert(list[0] == list[0]);
        let r = choose|r: int|
            0 <= r < all.len() && all[r].name@ == (#[trigger] list[0]).name@ && is_physical_spec(
                all[r].name@,
                report_id(all[r]),
            );
    }
}

/// The audio device list shows inputs before outputs, physical devices
/// before others of their kind, and devices of one kind and standing in
/// order of name.
pub proof fn law_audio_list_ordered(
    inputs: Seq<AudioEndpointReport>,
    default_input: Option<String>,
    outputs: Seq<AudioEndpointReport>,
    default_output: Option<String>,
    list: Seq<AudioDeviceInfo>,
)
    requires
        audio_list_spec(inputs, default_input, outputs, default_output, list),
    ensures
        forall|i: int, j: int|
            0 <= i < j < list.len() && (#[trigger] list[j]).kind == AudioDeviceType::Input
                ==> (#[trigger] list[i]).kind == AudioDeviceType::Input,
        forall|i: int, j: int|
            0 <= i < j < list.len() && (#[trigger] list[i]).kind == (#[trigger] list[j]).kind
                && list[j].is_physical ==> list[i].is_physical,
        forall|i: int, j: int|
            0 <= i < j < list.len() && (#[trigger] list[i]).kind == (#[trigger] list[j]).kind
                && list[i].is_physical == list[j].is_physical ==> !lex_lt(list[j].name@, list[i].name@),
{
    let (raw, groups, keys) = choose|
        raw: Seq<AudioDeviceInfo>,
        groups: Seq<AudioDeviceInfo>,
        keys: Seq<Seq<char>>,
    |
        {
            &&& raw_devices(inputs, default_input, outputs, default_output, raw)
            &&& merged_groups(raw, groups, keys)
            &&& list == sorted_spec(groups)
            &&& stably_sorted(groups, list)
        };
    assert(is_sorted(list));
    assert forall|i: int, j: int|
        #![trigger list[i], list[j]]
        0 <= i < j < list.len() implies !list[j].precedes(&list[i]) by {}
}

/// Taking an endpoint into a device entry: the entry keeps its name and
/// kind, is default if either is, and takes the endpoint's id exactly when
/// that id addresses the hardware more directly, `hw:` before `front:`
/// before `sysdefault` before anything else (in the lowercased ids).
pub proof fn law_absorb_prefers_hardware(e: AudioDeviceInfo, d: AudioDeviceInfo)
    ensures
        absorb(e, d).name == e.name,
        absorb(e, d).kind == e.kind,
        absorb(e, d).default == (e.default || d.default),
        ({
            let le = lowercase(e.id@);
            let ld = lowercase(d.id@);
            let rank_e: int = if has_infix(le, "hw:"@) {
                3
            } else if has_infix(le, "front:"@) {
                2
            } else if has_infix(le, "sysdefault"@) {
                1
            } else {
                0
            };
            let rank_d: int = if has_infix(ld, "hw:"@) {
                3
            } else if has_infix(ld, "front:"@) {
                2
            } else if has_infix(ld, "sysdefault"@) {
                1
            } else {
                0
            };
            absorb(e, d).id == if rank_d > rank_e {
                d.id
            } else {
                e.id
            }
        }),
{
}

} // verus!
