//! Audio devices grouped per sound card for display, with the best input,
//! output and HDMI endpoint of each group.
use vstd::prelude::*;
use crate::metrics::{distinct_in_order, first_occurrences, lemma_first_occurrences_from};
use crate::sort::{Ranked, lex_lt, lex_less, lemma_lex_irreflexive, lemma_lex_total, lemma_lex_transitive};
use crate::text::{string_views, chars_of, has_infix, has_prefix, lowercase, starts_with_chars, contains_chars, str_equal, string_of, to_lower};
use super::audio::{AudioConfigInfo, AudioDeviceInfo, AudioDeviceType};

verus! {

/// One endpoint of a device group.
#[derive(Debug, Clone)]
pub struct AudioEndpoint {
    pub id: String,
    pub name: String,
    pub kind: AudioDeviceType,
    pub configs: Vec<AudioConfigInfo>,
    pub default: bool,
}

/// The endpoints of one sound card (or one device), as displayed.
#[derive(Debug, Clone)]
pub struct AudioDeviceGroup {
    pub name: String,
    pub card_id: Option<String>,
    pub inputs: Vec<AudioEndpoint>,
    pub outputs: Vec<AudioEndpoint>,
    pub is_gpu_audio: bool,
}

/// The length of the comma-free run that `l` starts with.
pub open spec fn segment_len(l: Seq<char>) -> nat
    decreases l.len(),
{
    if l.len() == 0 || l[0] == ',' {
        0
    } else {
        1 + segment_len(l.drop_first())
    }
}

pub proof fn lemma_segment_len(l: Seq<char>)
    ensures
        segment_len(l) <= l.len(),
        forall|j: int| 0 <= j < segment_len(l) ==> l[j] != ',',
        segment_len(l) < l.len() ==> l[segment_len(l) as int] == ',',
    decreases l.len(),
{
    if l.len() > 0 && l[0] != ',' {
        lemma_segment_len(l.drop_first());
        assert forall|j: int| 0 <= j < segment_len(l) implies l[j] != ',' by {
            if j > 0 {
                assert(l[j] == l.drop_first()[j - 1]);
            }
        }
    }
}

/// The text after `card=` in the first comma-separated part of `l` that
/// starts with it.
pub open spec fn card_in(l: Seq<char>) -> Option<Seq<char>>
    decreases l.len(),
{
    let n = segment_len(l);
    proof {
        lemma_segment_len(l);
    }
    let seg = l.subrange(0, n as int);
    if has_prefix(seg, "card="@) {
        Some(seg.subrange(5, n as int))
    } else if n < l.len() {
        card_in(l.subrange(n as int + 1, l.len() as int))
    } else {
        None
    }
}

/// The card an endpoint id names (looked up in the lowercased id).
pub open spec fn card_of(id: Seq<char>) -> Option<Seq<char>> {
    card_in(lowercase(id))
}

/// Whether a device is HDMI audio: its lowercased name or id mentions `hdmi`.
pub open spec fn is_hdmi_spec(d: AudioDeviceInfo) -> bool {
    has_infix(lowercase(d.name@), "hdmi"@) || has_infix(lowercase(d.id@), "hdmi"@)
}

/// The key under which a device is grouped: `gpu:` and its card for HDMI
/// audio (`unknown` without a card), else its card, else its name.
pub open spec fn display_key(d: AudioDeviceInfo) -> Seq<char> {
    if is_hdmi_spec(d) {
        "gpu:"@ + match card_of(d.id@) {
            Some(c) => c,
            None => "unknown"@,
        }
    } else {
        match card_of(d.id@) {
            Some(c) => c,
            None => d.name@,
        }
    }
}

fn card_from(l: &Vec<char>, start: usize) -> (r: Option<Vec<char>>)
    requires
        start <= l@.len(),
    ensures
        r matches Some(c) ==> card_in(l@.subrange(start as int, l@.len() as int)) == Some(c@),
        r is None ==> card_in(l@.subrange(start as int, l@.len() as int)) is None,
    decreases l@.len() - start,
{
    let ghost rest = l@.subrange(start as int, l@.len() as int);
    let mut e: usize = start;
    while e < l.len() && l[e] != ','
        invariant
            start <= e <= l@.len(),
            forall|j: int| start <= j < e ==> l@[j] != ',',
        decreases l@.len() - e,
    {
        e += 1;
    }
    proof {
        lemma_segment_len(rest);
        lemma_seg_is(rest, e - start);
    }
    let mut seg: Vec<char> = Vec::new();
    let mut k: usize = start;
    while k < e
        invariant
            start <= k <= e <= l@.len(),
            seg@ == l@.subrange(start as int, k as int),
        decreases e - k,
    {
        seg.push(l[k]);
        k += 1;
        assert(seg@ =~= l@.subrange(start as int, k as int));
    }
    assert(seg@ =~= rest.subrange(0, (e - start) as int));
    let p = chars_of("card=");
    if starts_with_chars(seg.as_slice(), p.as_slice()) {
        proof {
            reveal_strlit("card=");
        }
        let mut c: Vec<char> = Vec::new();
        let mut q: usize = 5;
        while q < seg.len()
            invariant
                5 <= q <= seg@.len(),
                c@ == seg@.subrange(5, q as int),
            decreases seg@.len() - q,
        {
            c.push(seg[q]);
            q += 1;
            assert(c@ =~= seg@.subrange(5, q as int));
        }
        Some(c)
    } else if e < l.len() {
        proof {
            assert(rest.subrange(e - start + 1, rest.len() as int) =~= l@.subrange(
                e + 1,
                l@.len() as int,
            ));
        }
        card_from(l, e + 1)
    } else {
        None
    }
}

proof fn lemma_seg_is(l: Seq<char>, k: int)
    requires
        0 <= k <= l.len(),
        forall|j: int| 0 <= j < k ==> l[j] != ',',
        k == l.len() || l[k] == ',',
    ensures
        segment_len(l) == k,
    decreases k,
{
    if k > 0 {
        lemma_seg_is(l.drop_first(), k - 1);
    }
}

/// The card that an endpoint id names.
pub fn extract_card(id: &str) -> (r: Option<String>)
    ensures
        r matches Some(c) ==> card_of(id@) == Some(c@),
        r is None ==> card_of(id@) is None,
{
    let lower = to_lower(id);
    let l = chars_of(lower.as_str());
    assert(l@.subrange(0, l@.len() as int) =~= l@);
    match card_from(&l, 0) {
        Some(c) => Some(string_of(c.as_slice())),
        None => None,
    }
}

/// Whether a device is HDMI audio.
pub fn is_hdmi(d: &AudioDeviceInfo) -> (r: bool)
    ensures
        r == is_hdmi_spec(*d),
{
    let n = to_lower(d.name.as_str());
    let i = to_lower(d.id.as_str());
    crate::text::str_contains(n.as_str(), "hdmi") || crate::text::str_contains(i.as_str(), "hdmi")
}

/// The key under which a device is grouped.
pub fn display_key_exec(d: &AudioDeviceInfo) -> (r: String)
    ensures
        r@ == display_key(*d),
{
    let card = extract_card(d.id.as_str());
    if is_hdmi(d) {
        let mut s = String::from_str("gpu:");
        match card {
            Some(c) => s.append(c.as_str()),
            None => s.append("unknown"),
        }
        s
    } else {
        match card {
            Some(c) => c,
            None => d.name.clone(),
        }
    }
}

/// `e` shows the device `d` as an endpoint.
pub open spec fn endpoint_of(d: AudioDeviceInfo, e: AudioEndpoint) -> bool {
    &&& e.id@ == d.id@
    &&& e.name@ == d.name@
    &&& e.kind == d.kind
    &&& e.configs@ == d.configs@
    &&& e.default == d.default
}

/// `es` shows the devices `ds` as endpoints, in order.
pub open spec fn endpoints_of(ds: Seq<AudioDeviceInfo>, es: Seq<AudioEndpoint>) -> bool {
    es.len() == ds.len() && forall|i: int| 0 <= i < es.len() ==> endpoint_of(ds[i], #[trigger] es[i])
}

/// The index of the first device with display key `k`.
pub open spec fn first_with_key(devs: Seq<AudioDeviceInfo>, k: Seq<char>) -> int
    decreases devs.len(),
{
    if devs.len() == 0 {
        -1
    } else if display_key(devs[0]) == k {
        0
    } else {
        let r = first_with_key(devs.drop_first(), k);
        if r < 0 {
            -1
        } else {
            r + 1
        }
    }
}

/// `g` is the group of the devices with display key `k`: named, carded and
/// typed after the first of them, its inputs and outputs those of them of
/// each kind, in order.
pub open spec fn group_of(devs: Seq<AudioDeviceInfo>, k: Seq<char>, g: AudioDeviceGroup) -> bool {
    let first = devs[first_with_key(devs, k)];
    &&& g.name@ == first.name@
    &&& (match g.card_id {
        Some(c) => card_of(first.id@) == Some(c@),
        None => card_of(first.id@) is None,
    })
    &&& g.is_gpu_audio == is_hdmi_spec(first)
    &&& endpoints_of(
        devs.filter(|d: AudioDeviceInfo| display_key(d) == k && d.kind == AudioDeviceType::Input),
        g.inputs@,
    )
    &&& endpoints_of(
        devs.filter(|d: AudioDeviceInfo| display_key(d) == k && d.kind == AudioDeviceType::Output),
        g.outputs@,
    )
}

/// `groups` are the groups of `devs`, one per display key in order of
/// first appearance.
pub open spec fn groups_of(devs: Seq<AudioDeviceInfo>, groups: Seq<AudioDeviceGroup>) -> bool {
    let keys = first_occurrences(devs.map_values(|d: AudioDeviceInfo| display_key(d)));
    &&& groups.len() == keys.len()
    &&& forall|i: int| 0 <= i < groups.len() ==> group_of(devs, keys[i], #[trigger] groups[i])
}


proof fn lemma_first_with_key(devs: Seq<AudioDeviceInfo>, k: Seq<char>, f: int)
    requires
        0 <= f < devs.len(),
        display_key(devs[f]) == k,
        forall|j: int| 0 <= j < f ==> display_key(#[trigger] devs[j]) != k,
    ensures
        first_with_key(devs, k) == f,
    decreases f,
{
    if f > 0 {
        assert forall|j: int| 0 <= j < f - 1 implies display_key(
            #[trigger] devs.drop_first()[j],
        ) != k by {
            assert(devs.drop_first()[j] == devs[j + 1]);
        }
        lemma_first_with_key(devs.drop_first(), k, f - 1);
    }
}

fn copy_configs(v: &Vec<AudioConfigInfo>) -> (r: Vec<AudioConfigInfo>)
    ensures
        r@ == v@,
{
    let mut r: Vec<AudioConfigInfo> = Vec::new();
    let mut i: usize = 0;
    while i < v.len()
        invariant
            i <= v@.len(),
            r@ == v@.subrange(0, i as int),
        decreases v@.len() - i,
    {
        r.push(v[i]);
        i += 1;
        assert(r@ =~= v@.subrange(0, i as int));
    }
    assert(v@.subrange(0, v@.len() as int) =~= v@);
    r
}

fn endpoint_for(d: &AudioDeviceInfo) -> (e: AudioEndpoint)
    ensures
        endpoint_of(*d, e),
{
    AudioEndpoint {
        id: d.id.clone(),
        name: d.name.clone(),
        kind: d.kind,
        configs: copy_configs(&d.configs),
        default: d.default,
    }
}

/// The endpoints of the devices with display key `key` and kind `kind`.
fn endpoints_with(
    devs: &Vec<AudioDeviceInfo>,
    dkeys: &Vec<String>,
    key: &String,
    kind: AudioDeviceType,
) -> (r: Vec<AudioEndpoint>)
    requires
        dkeys@.len() == devs@.len(),
        forall|j: int| 0 <= j < devs@.len() ==> #[trigger] dkeys@[j]@ == display_key(devs@[j]),
    ensures
        endpoints_of(
            devs@.filter(|d: AudioDeviceInfo| display_key(d) == key@ && d.kind == kind),
            r@,
        ),
{
    let ghost k = key@;
    let mut r: Vec<AudioEndpoint> = Vec::new();
    let mut i: usize = 0;
    while i < devs.len()
        invariant
            i <= devs@.len(),
            k == key@,
            dkeys@.len() == devs@.len(),
            forall|j: int| 0 <= j < devs@.len() ==> #[trigger] dkeys@[j]@ == display_key(devs@[j]),
            endpoints_of(
                devs@.subrange(0, i as int).filter(
                    |d: AudioDeviceInfo| display_key(d) == k && d.kind == kind,
                ),
                r@,
            ),
        decreases devs@.len() - i,
    {
        let ghost pre = devs@.subrange(0, i as int);
        let ghost next = devs@.subrange(0, i + 1);
        assert(next.drop_last() =~= pre);
        reveal_with_fuel(Seq::filter, 1);
        let ghost before = r@;
        let ghost fpre = pre.filter(|d: AudioDeviceInfo| display_key(d) == k && d.kind == kind);
        if str_equal(dkeys[i].as_str(), key.as_str()) && devs[i].kind == kind {
            let e = endpoint_for(&devs[i]);
            r.push(e);
            proof {
                let fnext = next.filter(|d: AudioDeviceInfo| display_key(d) == k && d.kind == kind);
                assert(fnext == fpre.push(devs@[i as int]));
                assert forall|q: int| 0 <= q < r@.len() implies endpoint_of(fnext[q], #[trigger] r@[q]) by {
                    if q < before.len() {
                        assert(r@[q] == before[q]);
                        assert(fnext[q] == fpre[q]);
                    }
                }
            }
        }
        i += 1;
    }
    assert(devs@.subrange(0, devs@.len() as int) =~= devs@);
    r
}

/// Groups the devices for display: one group per display key, in order of
/// first appearance.
pub fn group_devices(devs: &Vec<AudioDeviceInfo>) -> (r: Vec<AudioDeviceGroup>)
    ensures
        groups_of(devs@, r@),
{
    let mut dkeys: Vec<String> = Vec::new();
    let mut i: usize = 0;
    while i < devs.len()
        invariant
            i <= devs@.len(),
            dkeys@.len() == i,
            forall|j: int| 0 <= j < i ==> #[trigger] dkeys@[j]@ == display_key(devs@[j]),
        decreases devs@.len() - i,
    {
        dkeys.push(display_key_exec(&devs[i]));
        i += 1;
    }
    let ghost all_keys = devs@.map_values(|d: AudioDeviceInfo| display_key(d));
    assert(string_views(dkeys@) =~= all_keys);
    let keys = distinct_in_order(&dkeys);
    let ghost kseq = first_occurrences(all_keys);
    let mut groups: Vec<AudioDeviceGroup> = Vec::new();
    let mut g: usize = 0;
    while g < keys.len()
        invariant
            g <= keys@.len(),
            string_views(keys@) == kseq,
            kseq == first_occurrences(all_keys),
            all_keys == devs@.map_values(|d: AudioDeviceInfo| display_key(d)),
            dkeys@.len() == devs@.len(),
            forall|j: int| 0 <= j < devs@.len() ==> #[trigger] dkeys@[j]@ == display_key(devs@[j]),
            groups@.len() == g,
            forall|q: int| 0 <= q < g ==> group_of(devs@, kseq[q], #[trigger] groups@[q]),
        decreases keys@.len() - g,
    {
        let key = &keys[g];
        proof {
            assert(kseq[g as int] == key@);
            lemma_first_occurrences_from(all_keys, g as int);
        }
        let mut f: usize = 0;
        while f < devs.len() && !str_equal(dkeys[f].as_str(), key.as_str())
            invariant
                f <= devs@.len(),
                dkeys@.len() == devs@.len(),
                forall|j: int| 0 <= j < devs@.len() ==> #[trigger] dkeys@[j]@ == display_key(devs@[j]),
                forall|j: int| 0 <= j < f ==> display_key(#[trigger] devs@[j]) != key@,
            decreases devs@.len() - f,
        {
            f += 1;
        }
        proof {
            if f == devs@.len() {
                let j = choose|j: int| 0 <= j < all_keys.len() && all_keys[j] == key@;
                assert(all_keys[j] == display_key(devs@[j]));
                assert(false);
            }
            lemma_first_with_key(devs@, key@, f as int);
        }
        let first = &devs[f];
        let inputs = endpoints_with(devs, &dkeys, key, AudioDeviceType::Input);
        let outputs = endpoints_with(devs, &dkeys, key, AudioDeviceType::Output);
        let grp = AudioDeviceGroup {
            name: first.name.clone(),
            card_id: extract_card(first.id.as_str()),
            inputs,
            outputs,
            is_gpu_audio: is_hdmi(first),
        };
        groups.push(grp);
        g += 1;
    }
    groups
}

/// The number of devices of `devs` shown under display key `k` among the
/// endpoints of kind `kind`.
pub open spec fn keyed_count(devs: Seq<AudioDeviceInfo>, k: Seq<char>, kind: AudioDeviceType) -> nat {
    if kind == AudioDeviceType::Input {
        devs.filter(|d: AudioDeviceInfo| display_key(d) == k && d.kind == AudioDeviceType::Input).len()
    } else {
        devs.filter(|d: AudioDeviceInfo| display_key(d) == k && d.kind == AudioDeviceType::Output).len()
    }
}

/// The number of devices of `devs` shown under display key `k`.
pub open spec fn shown_under(devs: Seq<AudioDeviceInfo>, k: Seq<char>) -> nat {
    keyed_count(devs, k, AudioDeviceType::Input) + keyed_count(devs, k, AudioDeviceType::Output)
}

/// The number of devices of `devs` shown under the keys `ks`, a key as often
/// as it occurs.
pub open spec fn shown_under_all(devs: Seq<AudioDeviceInfo>, ks: Seq<Seq<char>>) -> nat
    decreases ks.len(),
{
    if ks.len() == 0 {
        0
    } else {
        shown_under_all(devs, ks.drop_last()) + shown_under(devs, ks.last())
    }
}

/// The number of endpoints that the groups show.
pub open spec fn endpoint_total(groups: Seq<AudioDeviceGroup>) -> nat
    decreases groups.len(),
{
    if groups.len() == 0 {
        0
    } else {
        endpoint_total(groups.drop_last()) + groups.last().inputs@.len() + groups.last().outputs@.len()
    }
}

/// How often `k` occurs in `ks`.
pub open spec fn occurrences(ks: Seq<Seq<char>>, k: Seq<char>) -> nat
    decreases ks.len(),
{
    if ks.len() == 0 {
        0
    } else {
        occurrences(ks.drop_last(), k) + if ks.last() == k {
            1nat
        } else {
            0nat
        }
    }
}

/// `g` shows the device `d` among its endpoints of `d`'s kind.
pub open spec fn shows(g: AudioDeviceGroup, d: AudioDeviceInfo) -> bool {
    if d.kind == AudioDeviceType::Input {
        exists|e: int| 0 <= e < g.inputs@.len() && endpoint_of(d, #[trigger] g.inputs@[e])
    } else {
        exists|e: int| 0 <= e < g.outputs@.len() && endpoint_of(d, #[trigger] g.outputs@[e])
    }
}

proof fn lemma_keyed_count_push(devs: Seq<AudioDeviceInfo>, d: AudioDeviceInfo, k: Seq<char>)
    ensures
        shown_under(devs.push(d), k) == shown_under(devs, k) + if display_key(d) == k {
            1nat
        } else {
            0nat
        },
{
    reveal(Seq::filter);
    let s = devs.push(d);
    assert(s.drop_last() =~= devs);
    assert(s.last() == d);
}

proof fn lemma_shown_under_none(devs: Seq<AudioDeviceInfo>, k: Seq<char>)
    requires
        forall|j: int| 0 <= j < devs.len() ==> display_key(#[trigger] devs[j]) != k,
    ensures
        shown_under(devs, k) == 0,
    decreases devs.len(),
{
    if devs.len() > 0 {
        let p = devs.drop_last();
        assert forall|j: int| 0 <= j < p.len() implies display_key(#[trigger] p[j]) != k by {
            assert(p[j] == devs[j]);
        }
        lemma_shown_under_none(p, k);
        lemma_keyed_count_push(p, devs.last(), k);
        assert(p.push(devs.last()) =~= devs);
    } else {
        reveal(Seq::filter);
    }
}

proof fn lemma_shown_under_all_push(devs: Seq<AudioDeviceInfo>, d: AudioDeviceInfo, ks: Seq<Seq<char>>)
    ensures
        shown_under_all(devs.push(d), ks) == shown_under_all(devs, ks) + occurrences(ks, display_key(d)),
    decreases ks.len(),
{
    if ks.len() > 0 {
        lemma_shown_under_all_push(devs, d, ks.drop_last());
        lemma_keyed_count_push(devs, d, ks.last());
    }
}

proof fn lemma_occurrences(ks: Seq<Seq<char>>, k: Seq<char>)
    requires
        ks.no_duplicates(),
    ensures
        ks.contains(k) ==> occurrences(ks, k) == 1,
        !ks.contains(k) ==> occurrences(ks, k) == 0,
    decreases ks.len(),
{
    if ks.len() > 0 {
        let p = ks.drop_last();
        assert(p.no_duplicates());
        lemma_occurrences(p, k);
        if ks.last() == k {
            assert(!p.contains(k)) by {
                if p.contains(k) {
                    let j = choose|j: int| 0 <= j < p.len() && p[j] == k;
                    assert(ks[j] == ks[ks.len() - 1]);
                }
            }
        } else {
            assert(ks.contains(k) ==> p.contains(k)) by {
                if ks.contains(k) {
                    let j = choose|j: int| 0 <= j < ks.len() && ks[j] == k;
                    assert(p[j] == k);
                }
            }
            assert(p.contains(k) ==> ks.contains(k)) by {
                if p.contains(k) {
                    let j = choose|j: int| 0 <= j < p.len() && p[j] == k;
                    assert(ks[j] == k);
                }
            }
        }
    }
}

proof fn lemma_first_occurrences_facts(names: Seq<Seq<char>>)
    ensures
        first_occurrences(names).no_duplicates(),
        forall|j: int| 0 <= j < names.len() ==> first_occurrences(names).contains(#[trigger] names[j]),
    decreases names.len(),
{
    if names.len() > 0 {
        let p = names.drop_last();
        lemma_first_occurrences_facts(p);
        let kept = first_occurrences(p);
        let x = names.last();
        if !kept.contains(x) {
            let f = kept.push(x);
            assert forall|a: int, b: int| 0 <= a < f.len() && 0 <= b < f.len() && a != b implies f[a]
                != f[b] by {
                if a < kept.len() && b < kept.len() {
                } else if a < kept.len() {
                    assert(kept.contains(kept[a]));
                } else {
                    assert(kept.contains(kept[b]));
                }
            }
        }
        assert forall|j: int| 0 <= j < names.len() implies first_occurrences(names).contains(
            #[trigger] names[j],
        ) by {
            if j < names.len() - 1 {
                assert(names[j] == p[j]);
                let i = choose|i: int| 0 <= i < kept.len() && kept[i] == p[j];
                if !kept.contains(x) {
                    assert(kept.push(x)[i] == p[j]);
                }
            } else if !kept.contains(x) {
                assert(kept.push(x)[kept.len() as int] == x);
            }
        }
    }
}

/// The display keys of devices.
pub open spec fn display_keys(devs: Seq<AudioDeviceInfo>) -> Seq<Seq<char>> {
    devs.map_values(|d: AudioDeviceInfo| display_key(d))
}

proof fn lemma_shown_all(devs: Seq<AudioDeviceInfo>)
    ensures
        shown_under_all(devs, first_occurrences(display_keys(devs))) == devs.len(),
    decreases devs.len(),
{
    if devs.len() > 0 {
        let p = devs.drop_last();
        let d = devs.last();
        let k = display_key(d);
        lemma_shown_all(p);
        assert(display_keys(devs).drop_last() =~= display_keys(p));
        assert(display_keys(devs).last() == k);
        assert(p.push(d) =~= devs);
        let kept = first_occurrences(display_keys(p));
        lemma_first_occurrences_facts(display_keys(p));
        lemma_occurrences(kept, k);
        lemma_shown_under_all_push(p, d, kept);
        if kept.contains(k) {
            assert(first_occurrences(display_keys(devs)) == kept);
        } else {
            assert(first_occurrences(display_keys(devs)) == kept.push(k));
            assert(kept.push(k).drop_last() =~= kept);
            assert forall|j: int| 0 <= j < p.len() implies display_key(#[trigger] p[j]) != k by {
                assert(display_keys(p)[j] == display_key(p[j]));
                assert(kept.contains(display_keys(p)[j]));
            }
            lemma_shown_under_none(p, k);
            lemma_keyed_count_push(p, d, k);
        }
    } else {
        assert(display_keys(devs) =~= Seq::<Seq<char>>::empty());
    }
}

proof fn lemma_endpoint_total(devs: Seq<AudioDeviceInfo>, groups: Seq<AudioDeviceGroup>, n: int)
    requires
        groups_of(devs, groups),
        0 <= n <= groups.len(),
    ensures
        endpoint_total(groups.take(n)) == shown_under_all(
            devs,
            first_occurrences(display_keys(devs)).take(n),
        ),
    decreases n,
{
    let keys = first_occurrences(display_keys(devs));
    assert(display_keys(devs) =~= devs.map_values(|d: AudioDeviceInfo| display_key(d)));
    if n > 0 {
        lemma_endpoint_total(devs, groups, n - 1);
        assert(groups.take(n).drop_last() =~= groups.take(n - 1));
        assert(keys.take(n).drop_last() =~= keys.take(n - 1));
        assert(group_of(devs, keys[n - 1], groups[n - 1]));
    }
}

/// Every audio device is shown once by the groups of the report: the
/// groups show as many endpoints as there are devices, and each device is
/// among the endpoints of its kind in one of the groups.
pub proof fn law_each_audio_device_shown_once(
    devs: Seq<AudioDeviceInfo>,
    groups: Seq<AudioDeviceGroup>,
)
    requires
        groups_of(devs, groups),
    ensures
        endpoint_total(groups) == devs.len(),
        forall|i: int|
            0 <= i < devs.len() ==> exists|g: int| 0 <= g < groups.len() && shows(groups[g], #[trigger] devs[i]),
{
    let keys = first_occurrences(display_keys(devs));
    assert(display_keys(devs) =~= devs.map_values(|d: AudioDeviceInfo| display_key(d)));
    lemma_endpoint_total(devs, groups, groups.len() as int);
    assert(groups.take(groups.len() as int) =~= groups);
    assert(keys.take(keys.len() as int) =~= keys);
    lemma_shown_all(devs);
    lemma_first_occurrences_facts(display_keys(devs));
    assert forall|i: int| 0 <= i < devs.len() implies exists|g: int|
        0 <= g < groups.len() && shows(groups[g], #[trigger] devs[i]) by {
        let d = devs[i];
        let k = display_key(d);
        assert(display_keys(devs)[i] == k);
        assert(keys.contains(k));
        let g = choose|g: int| 0 <= g < keys.len() && keys[g] == k;
        assert(group_of(devs, k, groups[g]));
        if d.kind == AudioDeviceType::Input {
            let pred = |x: AudioDeviceInfo| display_key(x) == k && x.kind == AudioDeviceType::Input;
            devs.lemma_filter_contains(pred, i);
            let f = devs.filter(pred);
            let e = choose|e: int| 0 <= e < f.len() && f[e] == d;
            assert(endpoint_of(f[e], groups[g].inputs@[e]));
            assert(shows(groups[g], d));
        } else {
            let pred = |x: AudioDeviceInfo| display_key(x) == k && x.kind == AudioDeviceType::Output;
            devs.lemma_filter_contains(pred, i);
            let f = devs.filter(pred);
            let e = choose|e: int| 0 <= e < f.len() && f[e] == d;
            assert(endpoint_of(f[e], groups[g].outputs@[e]));
            assert(shows(groups[g], d));
        }
    }
}

} // verus!
