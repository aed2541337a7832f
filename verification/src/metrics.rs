//! System metrics: the figures derived from raw counters and the text that
//! shows sizes, frequencies, uptimes and interface kinds.
use vstd::prelude::*;
use crate::fixed::{exp2, lemma_exp2_mono, f32_of_int, f64_of_int, f64_of_u64, float_of_u128, fixed_text, lemma_exp2_table, push_fixed, quotient_digits, quotient_digits_exec, rne, rne_exec};
use crate::text::{parse_unsigned, parse_unsigned_chars, join_with, push_joined, push_yes_no, yes_no, chars_of, decimal, string_views, has_prefix, lowercase, push_decimal, push_str, starts_with_chars, str_equal, string_of, to_lower, trim, trim_chars};

verus! {

/// Memory figures in bytes.
#[derive(Debug, Clone, Copy, PartialEq, Eq, Structural, Default)]
pub struct MemoryInfo {
    pub total: u64,
    pub used: u64,
    pub free: u64,
    pub swap_total: u64,
    pub swap_used: u64,
}

impl MemoryInfo {
    /// The figures for the given counters; free memory is what is not used
    /// (zero if more is used than there is).
    pub fn from_counters(total: u64, used: u64, swap_total: u64, swap_used: u64) -> (r: MemoryInfo)
        ensures
            r.total == total,
            r.used == used,
            r.free == (if used <= total { total - used } else { 0 }),
            r.swap_total == swap_total,
            r.swap_used == swap_used,
    {
        MemoryInfo { total, used, free: total.saturating_sub(used), swap_total, swap_used }
    }
}

/// A mounted disk.
#[derive(Debug, Clone, Default)]
pub struct DiskInfo {
    pub name: String,
    pub mount_point: String,
    pub filesystem: String,
    pub total_space: u64,
    pub available_space: u64,
    pub used_space: u64,
}

impl DiskInfo {
    /// The disk entry for the given texts and counters; used space is what
    /// is not available (zero if more is available than there is).
    pub fn from_counters(
        name: String,
        mount_point: String,
        filesystem: String,
        total: u64,
        available: u64,
    ) -> (r: DiskInfo)
        ensures
            r.name == name,
            r.mount_point == mount_point,
            r.filesystem == filesystem,
            r.total_space == total,
            r.available_space == available,
            r.used_space == (if available <= total { total - available } else { 0 }),
    {
        DiskInfo {
            name,
            mount_point,
            filesystem,
            total_space: total,
            available_space: available,
            used_space: total.saturating_sub(available),
        }
    }
}

/// An address of a network interface, as text.
#[derive(Debug, Clone)]
pub struct IpAddressText {
    pub text: String,
    pub is_ipv4: bool,
}

/// A network interface.
#[derive(Debug, Clone, Default)]
pub struct NetworkInfo {
    pub name: String,
    pub interface_type: String,
    pub status: String,
    pub ipv4: Vec<String>,
    pub ipv6: Vec<String>,
    pub received: u64,
    pub transmitted: u64,
}

/// The texts of the addresses of one family, in order.
pub open spec fn addresses_of(addrs: Seq<IpAddressText>, v4: bool) -> Seq<Seq<char>>
    decreases addrs.len(),
{
    if addrs.len() == 0 {
        Seq::empty()
    } else {
        let rest = addresses_of(addrs.drop_last(), v4);
        if addrs.last().is_ipv4 == v4 {
            rest.push(addrs.last().text@)
        } else {
            rest
        }
    }
}

/// The kind of interface that a name stands for.
pub open spec fn interface_type_spec(name: Seq<char>) -> Seq<char> {
    let l = lowercase(name);
    if l == "lo"@ {
        "Loopback"@
    } else if has_prefix(l, "wl"@) || has_prefix(l, "wlan"@) || has_prefix(l, "wifi"@) {
        "Wi-Fi"@
    } else if has_prefix(l, "en"@) || has_prefix(l, "eth"@) {
        "Ethernet"@
    } else if has_prefix(l, "tun"@) || has_prefix(l, "tap"@) || has_prefix(l, "wg"@) || has_prefix(
        l,
        "tailscale"@,
    ) {
        "VPN"@
    } else {
        "Unknown"@
    }
}

fn prefixed(l: &Vec<char>, p: &str) -> (r: bool)
    ensures
        r == has_prefix(l@, p@),
{
    let pc = chars_of(p);
    starts_with_chars(l.as_slice(), pc.as_slice())
}

/// The kind of interface that a name stands for.
pub fn interface_type(name: &str) -> (r: String)
    ensures
        r@ == interface_type_spec(name@),
{
    let lower = to_lower(name);
    let l = chars_of(lower.as_str());
    if str_equal(lower.as_str(), "lo") {
        String::from_str("Loopback")
    } else if prefixed(&l, "wl") || prefixed(&l, "wlan") || prefixed(&l, "wifi") {
        String::from_str("Wi-Fi")
    } else if prefixed(&l, "en") || prefixed(&l, "eth") {
        String::from_str("Ethernet")
    } else if prefixed(&l, "tun") || prefixed(&l, "tap") || prefixed(&l, "wg") || prefixed(
        &l,
        "tailscale",
    ) {
        String::from_str("VPN")
    } else {
        String::from_str("Unknown")
    }
}

impl NetworkInfo {
    /// The entry for an interface: its kind from its name, its addresses
    /// split by family in order, up exactly when it has an address, and its
    /// traffic counters (zero when there are none).
    pub fn from_interface(name: String, addrs: &Vec<IpAddressText>, traffic: Option<(u64, u64)>) -> (r:
        NetworkInfo)
        ensures
            r.name == name,
            r.interface_type@ == interface_type_spec(name@),
            r.ipv4@.map_values(|s: String| s@) == addresses_of(addrs@, true),
            r.ipv6@.map_values(|s: String| s@) == addresses_of(addrs@, false),
            r.status@ == (if addrs@.len() == 0 {
                "Down"@
            } else {
                "Up"@
            }),
            r.received == (match traffic {
                Some(t) => t.0,
                None => 0,
            }),
            r.transmitted == (match traffic {
                Some(t) => t.1,
                None => 0,
            }),
    {
        let mut ipv4: Vec<String> = Vec::new();
        let mut ipv6: Vec<String> = Vec::new();
        let mut i: usize = 0;
        while i < addrs.len()
            invariant
                i <= addrs@.len(),
                ipv4@.map_values(|s: String| s@) == addresses_of(addrs@.subrange(0, i as int), true),
                ipv6@.map_values(|s: String| s@) == addresses_of(addrs@.subrange(0, i as int), false),
                ipv4@.len() + ipv6@.len() == i,
            decreases addrs@.len() - i,
        {
            assert(addrs@.subrange(0, i + 1).drop_last() =~= addrs@.subrange(0, i as int));
            let a = &addrs[i];
            let ghost p4 = ipv4@;
            let ghost p6 = ipv6@;
            if a.is_ipv4 {
                ipv4.push(a.text.clone());
                assert(ipv4@.map_values(|s: String| s@) =~= p4.map_values(|s: String| s@).push(
                    a.text@,
                ));
            } else {
                ipv6.push(a.text.clone());
                assert(ipv6@.map_values(|s: String| s@) =~= p6.map_values(|s: String| s@).push(
                    a.text@,
                ));
            }
            i += 1;
        }
        assert(addrs@.subrange(0, addrs@.len() as int) =~= addrs@);
        let status = if ipv4.len() == 0 && ipv6.len() == 0 {
            String::from_str("Down")
        } else {
            String::from_str("Up")
        };
        let (received, transmitted) = match traffic {
            Some(t) => t,
            None => (0, 0),
        };
        let kind = interface_type(name.as_str());
        NetworkInfo { name, interface_type: kind, status, ipv4, ipv6, received, transmitted }
    }
}

/// The proxy configuration taken from the environment.
#[derive(Debug, Clone, Default)]
pub struct ProxyInfo {
    pub enabled: bool,
    pub http_proxy: Option<String>,
    pub https_proxy: Option<String>,
    pub all_proxy: Option<String>,
    pub no_proxy: Option<String>,
}

/// The upper-case variable if set, else the lower-case one.
pub open spec fn first_set(upper: Option<String>, lower: Option<String>) -> Option<String> {
    match upper {
        Some(u) => Some(u),
        None => lower,
    }
}

impl ProxyInfo {
    /// The proxy settings from the values of `HTTP_PROXY`/`http_proxy`,
    /// `HTTPS_PROXY`/`https_proxy`, `ALL_PROXY`/`all_proxy` and
    /// `NO_PROXY`/`no_proxy` (the upper-case name wins); enabled when one of
    /// the first three is set.
    pub fn from_vars(
        http_upper: Option<String>,
        http_lower: Option<String>,
        https_upper: Option<String>,
        https_lower: Option<String>,
        all_upper: Option<String>,
        all_lower: Option<String>,
        no_upper: Option<String>,
        no_lower: Option<String>,
    ) -> (r: ProxyInfo)
        ensures
            r.http_proxy == first_set(http_upper, http_lower),
            r.https_proxy == first_set(https_upper, https_lower),
            r.all_proxy == first_set(all_upper, all_lower),
            r.no_proxy == first_set(no_upper, no_lower),
            r.enabled == (r.http_proxy is Some || r.https_proxy is Some || r.all_proxy is Some),
    {
        let http_proxy = match http_upper {
            Some(u) => Some(u),
            None => http_lower,
        };
        let https_proxy = match https_upper {
            Some(u) => Some(u),
            None => https_lower,
        };
        let all_proxy = match all_upper {
            Some(u) => Some(u),
            None => all_lower,
        };
        let no_proxy = match no_upper {
            Some(u) => Some(u),
            None => no_lower,
        };
        let enabled = http_proxy.is_some() || https_proxy.is_some() || all_proxy.is_some();
        ProxyInfo { enabled, http_proxy, https_proxy, all_proxy, no_proxy }
    }
}

/// The name a graphics adapter is listed under: its reported name up to the
/// first `(`, without surrounding white space.
pub open spec fn gpu_name_spec(raw: Seq<char>) -> Seq<char> {
    trim(before_paren(raw))
}

/// `s` up to its first `(`.
pub open spec fn before_paren(s: Seq<char>) -> Seq<char>
    decreases s.len(),
{
    if s.len() == 0 {
        s
    } else if s[0] == '(' {
        Seq::empty()
    } else {
        seq![s[0]] + before_paren(s.drop_first())
    }
}

/// The name a graphics adapter is listed under.
pub fn gpu_name(raw: &str) -> (r: String)
    ensures
        r@ == gpu_name_spec(raw@),
{
    let c = chars_of(raw);
    let mut i: usize = 0;
    assert(c@.subrange(0, 0) + c@.subrange(0, c@.len() as int) =~= c@);
    while i < c.len() && c[i] != '('
        invariant
            i <= c@.len(),
            before_paren(c@) == c@.subrange(0, i as int) + before_paren(c@.subrange(i as int, c@.len() as int)),
        decreases c@.len() - i,
    {
        let ghost rest = c@.subrange(i as int, c@.len() as int);
        assert(rest.drop_first() =~= c@.subrange(i + 1, c@.len() as int));
        assert(c@.subrange(0, i + 1) =~= c@.subrange(0, i as int) + seq![c@[i as int]]);
        i += 1;
    }
    proof {
        assert(c@.subrange(0, 0) =~= Seq::<char>::empty());
        let rest = c@.subrange(i as int, c@.len() as int);
        assert(before_paren(rest) =~= Seq::<char>::empty());
        assert(c@.subrange(0, i as int) + Seq::<char>::empty() =~= c@.subrange(0, i as int));
        assert(c@.subrange(0, c@.len() as int) =~= c@);
    }
    let mut head: Vec<char> = Vec::new();
    let mut k: usize = 0;
    while k < i
        invariant
            k <= i <= c@.len(),
            head@ == c@.subrange(0, k as int),
        decreases i - k,
    {
        head.push(c[k]);
        k += 1;
        assert(head@ =~= c@.subrange(0, k as int));
    }
    let t = trim_chars(head.as_slice());
    string_of(t.as_slice())
}

/// `names` without repeats, each kept where it first appears.
pub open spec fn first_occurrences(names: Seq<Seq<char>>) -> Seq<Seq<char>>
    decreases names.len(),
{
    if names.len() == 0 {
        Seq::empty()
    } else {
        let kept = first_occurrences(names.drop_last());
        if kept.contains(names.last()) {
            kept
        } else {
            kept.push(names.last())
        }
    }
}

/// `names` without repeats, each kept where it first appears.
pub fn distinct_in_order(names: &Vec<String>) -> (r: Vec<String>)
    ensures
        string_views(r@) == first_occurrences(string_views(names@)),
{
    let ghost all = string_views(names@);
    let mut r: Vec<String> = Vec::new();
    let mut i: usize = 0;
    while i < names.len()
        invariant
            i <= names@.len(),
            all == string_views(names@),
            string_views(r@) == first_occurrences(all.subrange(0, i as int)),
        decreases names@.len() - i,
    {
        let n = &names[i];
        assert(all.subrange(0, i + 1).drop_last() =~= all.subrange(0, i as int));
        let ghost prev = string_views(r@);
        let mut seen = false;
        let mut j: usize = 0;
        while j < r.len() && !seen
            invariant
                j <= r@.len(),
                seen ==> j < r@.len() && r@[j as int]@ == n@,
                forall|q: int| 0 <= q < j ==> r@[q]@ != n@,
            decreases r@.len() - j + (if seen { 0int } else { 1int }),
        {
            if str_equal(r[j].as_str(), n.as_str()) {
                seen = true;
            } else {
                j += 1;
            }
        }
        proof {
            if seen {
                assert(prev[j as int] == n@);
                assert(prev.contains(n@));
            } else {
                assert forall|q: int| 0 <= q < prev.len() implies prev[q] != n@ by {
                    assert(prev[q] == r@[q]@);
                }
                assert(!prev.contains(n@));
            }
        }
        if !seen {
            r.push(n.clone());
            assert(string_views(r@) =~= prev.push(all[i as int]));
        }
        i += 1;
    }
    assert(all.subrange(0, names@.len() as int) =~= all);
    r
}

/// Each value kept by `first_occurrences` occurs in the input.
pub proof fn lemma_first_occurrences_from(names: Seq<Seq<char>>, k: int)
    requires
        0 <= k < first_occurrences(names).len(),
    ensures
        names.contains(first_occurrences(names)[k]),
    decreases names.len(),
{
    let kept = first_occurrences(names.drop_last());
    if kept.contains(names.last()) {
        lemma_first_occurrences_from(names.drop_last(), k);
        let j = choose|j: int| 0 <= j < names.drop_last().len() && names.drop_last()[j] == kept[k];
        assert(names[j] == kept[k]);
    } else if k < kept.len() {
        lemma_first_occurrences_from(names.drop_last(), k);
        let j = choose|j: int| 0 <= j < names.drop_last().len() && names.drop_last()[j] == kept[k];
        assert(names[j] == kept[k]);
    } else {
        assert(names[names.len() - 1] == names.last());
    }
}

/// The adapter names to list: each reported name shortened, repeats left out.
pub fn gpu_names(raw: &Vec<String>) -> (r: Vec<String>)
    ensures
        string_views(r@) == first_occurrences(raw@.map_values(|s: String| gpu_name_spec(s@))),
{
    let mut short: Vec<String> = Vec::new();
    let mut i: usize = 0;
    while i < raw.len()
        invariant
            i <= raw@.len(),
            short@.len() == i,
            forall|j: int| 0 <= j < i ==> #[trigger] short@[j]@ == gpu_name_spec(raw@[j]@),
        decreases raw@.len() - i,
    {
        short.push(gpu_name(raw[i].as_str()));
        i += 1;
    }
    assert(string_views(short@) =~= raw@.map_values(|s: String| gpu_name_spec(s@)));
    distinct_in_order(&short)
}

/// The text for a byte count: in TB, GB, MB or KB with two decimals once it
/// reaches that unit (the count is taken as an `f64` and divided by the
/// unit), else as a whole number of bytes.
pub open spec fn format_bytes_spec(bytes: u64) -> Seq<char> {
    let v = f64_of_int(bytes as nat);
    if v >= exp2(40) {
        fixed_text(rne(v * 100, exp2(40)), 2) + " TB"@
    } else if v >= exp2(30) {
        fixed_text(rne(v * 100, exp2(30)), 2) + " GB"@
    } else if v >= exp2(20) {
        fixed_text(rne(v * 100, exp2(20)), 2) + " MB"@
    } else if v >= exp2(10) {
        fixed_text(rne(v * 100, exp2(10)), 2) + " KB"@
    } else {
        decimal(bytes as nat) + " B"@
    }
}

/// The text for a byte count.
pub fn format_bytes(bytes: u64) -> (r: String)
    ensures
        r@ == format_bytes_spec(bytes),
{
    proof {
        lemma_exp2_table();
        assert(exp2(10) == 1024 && exp2(20) == 0x10_0000 && exp2(30) == 0x4000_0000 && exp2(40)
            == 0x100_0000_0000) by {
            crate::fixed::lemma_exp2_small();
        }
    }
    let v = f64_of_u64(bytes);
    let mut r = String::new();
    if v >= 0x100_0000_0000 {
        push_fixed(&mut r, rne_exec(v * 100, 0x100_0000_0000), 2);
        push_str(&mut r, " TB");
    } else if v >= 0x4000_0000 {
        push_fixed(&mut r, rne_exec(v * 100, 0x4000_0000), 2);
        push_str(&mut r, " GB");
    } else if v >= 0x10_0000 {
        push_fixed(&mut r, rne_exec(v * 100, 0x10_0000), 2);
        push_str(&mut r, " MB");
    } else if v >= 1024 {
        push_fixed(&mut r, rne_exec(v * 100, 1024), 2);
        push_str(&mut r, " KB");
    } else {
        push_decimal(&mut r, bytes as u128);
        push_str(&mut r, " B");
    }
    assert(r@ =~= format_bytes_spec(bytes));
    r
}

/// The text for a frequency in MHz: from 1000 MHz on in GHz with two
/// decimals (the `f64` quotient by 1000), else whole MHz.
pub open spec fn format_frequency_spec(mhz: u64) -> Seq<char> {
    if mhz >= 1000 {
        fixed_text(quotient_digits(f64_of_int(mhz as nat), 1000, 2, 52), 2) + " GHz"@
    } else {
        decimal(mhz as nat) + " MHz"@
    }
}

/// The text for a frequency in MHz.
pub fn format_frequency(mhz: u64) -> (r: String)
    ensures
        r@ == format_frequency_spec(mhz),
{
    let mut r = String::new();
    if mhz >= 1000 {
        let v = f64_of_u64(mhz);
        proof {
            lemma_exp2_table();
        }
        push_fixed(&mut r, quotient_digits_exec(v, 1000, 2, 52), 2);
        push_str(&mut r, " GHz");
    } else {
        push_decimal(&mut r, mhz as u128);
        push_str(&mut r, " MHz");
    }
    assert(r@ =~= format_frequency_spec(mhz));
    r
}

/// The text for an uptime in seconds: whole days, then hours and minutes of
/// the day.
pub open spec fn format_uptime_spec(seconds: u64) -> Seq<char> {
    decimal((seconds / 86400) as nat) + "d "@ + decimal(((seconds % 86400) / 3600) as nat) + "h "@
        + decimal(((seconds % 3600) / 60) as nat) + "m"@
}

/// The text for an uptime in seconds.
pub fn format_uptime(seconds: u64) -> (r: String)
    ensures
        r@ == format_uptime_spec(seconds),
{
    let days = seconds / 86400;
    let hours = (seconds % 86400) / 3600;
    let minutes = (seconds % 3600) / 60;
    let mut r = String::new();
    push_decimal(&mut r, days as u128);
    push_str(&mut r, "d ");
    push_decimal(&mut r, hours as u128);
    push_str(&mut r, "h ");
    push_decimal(&mut r, minutes as u128);
    push_str(&mut r, "m");
    assert(r@ =~= format_uptime_spec(seconds));
    r
}

/// `part * 100 / whole` as `part as f64 * 100.0 / whole as f64` computes it,
/// shown with one decimal; `0.0` where `whole` is zero.
pub open spec fn percent_text(part: u64, whole: u64) -> Seq<char> {
    if whole == 0 {
        "0.0"@
    } else {
        fixed_text(
            quotient_digits(f64_of_int(f64_of_int(part as nat) * 100), f64_of_int(whole as nat), 1, 52),
            1,
        )
    }
}

/// Appends the percentage of `part` in `whole`.
pub fn push_percent(s: &mut String, part: u64, whole: u64)
    ensures
        final(s)@ == old(s)@ + percent_text(part, whole),
{
    if whole == 0 {
        push_str(s, "0.0");
        return;
    }
    let a = f64_of_u64(part);
    let b = float_of_u128(a * 100, 53);
    let t = f64_of_u64(whole);
    proof {
        lemma_exp2_table();
    }
    assert(t > 0);
    push_fixed(s, quotient_digits_exec(b, t, 1, 52), 1);
}

/// The text for a percentage of `part` in `whole`.
pub fn percent_string(part: u64, whole: u64) -> (r: String)
    ensures
        r@ == percent_text(part, whole),
{
    let mut r = String::new();
    push_percent(&mut r, part, whole);
    r
}

/// The system section of the metrics report.
pub open spec fn system_section_text(uptime_sec: u64) -> Seq<char> {
    "=== System ===\n"@ + "Uptime        : "@ + format_uptime_spec(uptime_sec) + "\n"@
}

/// The system section of the metrics report.
pub fn system_section(uptime_sec: u64) -> (r: String)
    ensures
        r@ == system_section_text(uptime_sec),
{
    let mut r = String::new();
    push_str(&mut r, "=== System ===\n");
    push_str(&mut r, "Uptime        : ");
    push_str(&mut r, format_uptime(uptime_sec).as_str());
    push_str(&mut r, "\n");
    assert(r@ =~= system_section_text(uptime_sec));
    r
}

/// The memory section of the metrics report, after a blank line.
pub open spec fn memory_section_text(m: MemoryInfo) -> Seq<char> {
    "\n"@ + "=== MEMORY ===\n"@ + "Usage         : "@ + percent_text(m.used, m.total) + "%\n"@
        + "RAM           : "@ + format_bytes_spec(m.used) + " / "@ + format_bytes_spec(m.total)
        + "\n"@ + "Free RAM      : "@ + format_bytes_spec(m.free) + "\n"@ + "Swap          : "@
        + format_bytes_spec(m.swap_used) + " / "@ + format_bytes_spec(m.swap_total) + " ("@
        + percent_text(m.swap_used, m.swap_total) + "%)\n"@
}

/// The memory section of the metrics report.
pub fn memory_section(m: &MemoryInfo) -> (r: String)
    ensures
        r@ == memory_section_text(*m),
{
    let mut r = String::new();
    push_str(&mut r, "\n");
    push_str(&mut r, "=== MEMORY ===\n");
    push_str(&mut r, "Usage         : ");
    push_percent(&mut r, m.used, m.total);
    push_str(&mut r, "%\n");
    push_str(&mut r, "RAM           : ");
    push_str(&mut r, format_bytes(m.used).as_str());
    push_str(&mut r, " / ");
    push_str(&mut r, format_bytes(m.total).as_str());
    push_str(&mut r, "\n");
    push_str(&mut r, "Free RAM      : ");
    push_str(&mut r, format_bytes(m.free).as_str());
    push_str(&mut r, "\n");
    push_str(&mut r, "Swap          : ");
    push_str(&mut r, format_bytes(m.swap_used).as_str());
    push_str(&mut r, " / ");
    push_str(&mut r, format_bytes(m.swap_total).as_str());
    push_str(&mut r, " (");
    push_percent(&mut r, m.swap_used, m.swap_total);
    push_str(&mut r, "%)\n");
    assert(r@ =~= memory_section_text(*m));
    r
}

/// The lines of one disk in the metrics report.
pub open spec fn disk_entry_text(d: DiskInfo) -> Seq<char> {
    d.name@ + "\n"@ + "  Mount       : "@ + d.mount_point@ + "\n"@ + "  Filesystem  : "@
        + d.filesystem@ + "\n"@ + "  Usage       : "@ + percent_text(d.used_space, d.total_space)
        + "%\n"@ + "  Used        : "@ + format_bytes_spec(d.used_space) + " / "@
        + format_bytes_spec(d.total_space) + "\n"@ + "  Free        : "@ + format_bytes_spec(
        d.available_space,
    ) + "\n"@
}

/// The lines of one disk in the metrics report.
pub fn disk_entry(d: &DiskInfo) -> (r: String)
    ensures
        r@ == disk_entry_text(*d),
{
    let mut r = String::new();
    push_str(&mut r, d.name.as_str());
    push_str(&mut r, "\n");
    push_str(&mut r, "  Mount       : ");
    push_str(&mut r, d.mount_point.as_str());
    push_str(&mut r, "\n");
    push_str(&mut r, "  Filesystem  : ");
    push_str(&mut r, d.filesystem.as_str());
    push_str(&mut r, "\n");
    push_str(&mut r, "  Usage       : ");
    push_percent(&mut r, d.used_space, d.total_space);
    push_str(&mut r, "%\n");
    push_str(&mut r, "  Used        : ");
    push_str(&mut r, format_bytes(d.used_space).as_str());
    push_str(&mut r, " / ");
    push_str(&mut r, format_bytes(d.total_space).as_str());
    push_str(&mut r, "\n");
    push_str(&mut r, "  Free        : ");
    push_str(&mut r, format_bytes(d.available_space).as_str());
    push_str(&mut r, "\n");
    assert(r@ =~= disk_entry_text(*d));
    r
}

/// The disks section of the metrics report: a blank line, the heading, then
/// the disks with a blank line between neighbours.
pub open spec fn disks_section_text(disks: Seq<DiskInfo>) -> Seq<char> {
    "\n"@ + "=== DISKS ===\n"@ + join_with(disks.map_values(|d: DiskInfo| disk_entry_text(d)), "\n"@)
}

/// The disks section of the metrics report.
pub fn disks_section(disks: &Vec<DiskInfo>) -> (r: String)
    ensures
        r@ == disks_section_text(disks@),
{
    let mut entries: Vec<String> = Vec::new();
    let mut i: usize = 0;
    while i < disks.len()
        invariant
            i <= disks@.len(),
            entries@.len() == i,
            string_views(entries@) == disks@.subrange(0, i as int).map_values(
                |d: DiskInfo| disk_entry_text(d),
            ),
        decreases disks@.len() - i,
    {
        let e = disk_entry(&disks[i]);
        let ghost before = entries@;
        entries.push(e);
        proof {
            let want = disks@.subrange(0, i + 1).map_values(|d: DiskInfo| disk_entry_text(d));
            assert forall|j: int| 0 <= j < i + 1 implies string_views(entries@)[j] == want[j] by {
                if j < i {
                    assert(string_views(before)[j] == disks@.subrange(0, i as int).map_values(
                        |d: DiskInfo| disk_entry_text(d),
                    )[j]);
                }
            }
            assert(string_views(entries@) =~= want);
        }
        i += 1;
    }
    assert(disks@.subrange(0, disks@.len() as int) =~= disks@);
    let mut r = String::new();
    push_str(&mut r, "\n");
    push_str(&mut r, "=== DISKS ===\n");
    push_joined(&mut r, &entries, "\n");
    assert(r@ =~= disks_section_text(disks@));
    r
}

/// A labelled line for a list of addresses, or nothing for no address.
pub open spec fn addresses_line(label: Seq<char>, addrs: Seq<String>) -> Seq<char> {
    if addrs.len() == 0 {
        Seq::empty()
    } else {
        label + join_with(string_views(addrs), ", "@) + "\n"@
    }
}

/// The lines of one network interface in the metrics report.
pub open spec fn network_entry_text(n: NetworkInfo) -> Seq<char> {
    n.name@ + "\n"@ + "  Type        : "@ + n.interface_type@ + "\n"@ + "  Status      : "@
        + n.status@ + "\n"@ + addresses_line("  IPv4        : "@, n.ipv4@) + addresses_line(
        "  IPv6        : "@,
        n.ipv6@,
    ) + "  RX          : "@ + format_bytes_spec(n.received) + "\n"@ + "  TX          : "@
        + format_bytes_spec(n.transmitted) + "\n"@
}

/// The lines of one network interface in the metrics report.
pub fn network_entry(n: &NetworkInfo) -> (r: String)
    ensures
        r@ == network_entry_text(*n),
{
    let mut r = String::new();
    push_str(&mut r, n.name.as_str());
    push_str(&mut r, "\n");
    push_str(&mut r, "  Type        : ");
    push_str(&mut r, n.interface_type.as_str());
    push_str(&mut r, "\n");
    push_str(&mut r, "  Status      : ");
    push_str(&mut r, n.status.as_str());
    push_str(&mut r, "\n");
    let ghost before_v4 = r@;
    if n.ipv4.len() > 0 {
        push_str(&mut r, "  IPv4        : ");
        push_joined(&mut r, &n.ipv4, ", ");
        push_str(&mut r, "\n");
    }
    assert(r@ =~= before_v4 + addresses_line("  IPv4        : "@, n.ipv4@));
    let ghost before_v6 = r@;
    if n.ipv6.len() > 0 {
        push_str(&mut r, "  IPv6        : ");
        push_joined(&mut r, &n.ipv6, ", ");
        push_str(&mut r, "\n");
    }
    assert(r@ =~= before_v6 + addresses_line("  IPv6        : "@, n.ipv6@));
    push_str(&mut r, "  RX          : ");
    push_str(&mut r, format_bytes(n.received).as_str());
    push_str(&mut r, "\n");
    push_str(&mut r, "  TX          : ");
    push_str(&mut r, format_bytes(n.transmitted).as_str());
    push_str(&mut r, "\n");
    assert(r@ =~= network_entry_text(*n));
    r
}

/// The networks section of the metrics report: a blank line, the heading,
/// then the interfaces with a blank line between neighbours.
pub open spec fn networks_section_text(nets: Seq<NetworkInfo>) -> Seq<char> {
    "\n"@ + "=== NETWORKS ===\n"@ + join_with(
        nets.map_values(|n: NetworkInfo| network_entry_text(n)),
        "\n"@,
    )
}

/// The networks section of the metrics report.
pub fn networks_section(nets: &Vec<NetworkInfo>) -> (r: String)
    ensures
        r@ == networks_section_text(nets@),
{
    let mut entries: Vec<String> = Vec::new();
    let mut i: usize = 0;
    while i < nets.len()
        invariant
            i <= nets@.len(),
            entries@.len() == i,
            string_views(entries@) == nets@.subrange(0, i as int).map_values(
                |n: NetworkInfo| network_entry_text(n),
            ),
        decreases nets@.len() - i,
    {
        let e = network_entry(&nets[i]);
        let ghost before = entries@;
        entries.push(e);
        proof {
            let want = nets@.subrange(0, i + 1).map_values(|n: NetworkInfo| network_entry_text(n));
            assert forall|j: int| 0 <= j < i + 1 implies string_views(entries@)[j] == want[j] by {
                if j < i {
                    assert(string_views(before)[j] == nets@.subrange(0, i as int).map_values(
                        |n: NetworkInfo| network_entry_text(n),
                    )[j]);
                }
            }
            assert(string_views(entries@) =~= want);
        }
        i += 1;
    }
    assert(nets@.subrange(0, nets@.len() as int) =~= nets@);
    let mut r = String::new();
    push_str(&mut r, "\n");
    push_str(&mut r, "=== NETWORKS ===\n");
    push_joined(&mut r, &entries, "\n");
    assert(r@ =~= networks_section_text(nets@));
    r
}

/// A labelled line for a proxy setting, or nothing where it is not set.
pub open spec fn proxy_line(label: Seq<char>, value: Option<String>) -> Seq<char> {
    match value {
        Some(v) => label + v@ + "\n"@,
        None => Seq::empty(),
    }
}

/// The proxy section of the metrics report, after a blank line.
pub open spec fn proxy_section_text(p: ProxyInfo) -> Seq<char> {
    "\n"@ + "=== PROXY ===\n"@ + "Enabled       : "@ + yes_no(p.enabled) + "\n"@ + proxy_line(
        "HTTP Proxy    : "@,
        p.http_proxy,
    ) + proxy_line("HTTPS Proxy   : "@, p.https_proxy) + proxy_line(
        "ALL Proxy     : "@,
        p.all_proxy,
    ) + proxy_line("NO Proxy      : "@, p.no_proxy)
}

/// Appends the labelled line of a proxy setting, if it is set.
fn push_proxy_line(s: &mut String, label: &str, value: &Option<String>)
    ensures
        final(s)@ == old(s)@ + proxy_line(label@, *value),
{
    match value {
        Some(v) => {
            push_str(s, label);
            push_str(s, v.as_str());
            push_str(s, "\n");
        },
        None => {},
    }
    assert(final(s)@ =~= old(s)@ + proxy_line(label@, *value));
}

/// The proxy section of the metrics report.
pub fn proxy_section(p: &ProxyInfo) -> (r: String)
    ensures
        r@ == proxy_section_text(*p),
{
    let mut r = String::new();
    push_str(&mut r, "\n");
    push_str(&mut r, "=== PROXY ===\n");
    push_str(&mut r, "Enabled       : ");
    push_yes_no(&mut r, p.enabled);
    push_str(&mut r, "\n");
    push_proxy_line(&mut r, "HTTP Proxy    : ", &p.http_proxy);
    push_proxy_line(&mut r, "HTTPS Proxy   : ", &p.https_proxy);
    push_proxy_line(&mut r, "ALL Proxy     : ", &p.all_proxy);
    push_proxy_line(&mut r, "NO Proxy      : ", &p.no_proxy);
    assert(r@ =~= proxy_section_text(*p));
    r
}

/// The counter that a sysfs file holds: its text without surrounding white
/// space, read as a `u64`; nothing where that is no such number.
pub open spec fn counter_value(text: Seq<char>) -> Option<u64> {
    match parse_unsigned(trim(text), u64::MAX as nat) {
        Ok(v) => Some(v as u64),
        Err(_) => None,
    }
}

/// Reads a counter such as the video memory figures of a graphics card.
pub fn read_counter(text: &str) -> (r: Option<u64>)
    ensures
        r == counter_value(text@),
{
    let t = trim_chars(chars_of(text).as_slice());
    match parse_unsigned_chars(t.as_slice(), 0xffff_ffff_ffff_ffff) {
        Ok(v) => Some(v),
        Err(_) => None,
    }
}

/// Whether an entry of the kernel's display device directory is a graphics
/// card, whose figures are read: its name begins with `card`.
pub fn is_card_entry(name: &str) -> (r: bool)
    ensures
        r == has_prefix(name@, "card"@),
{
    let l = chars_of(name);
    prefixed(&l, "card")
}

/// `part * 100 / whole` as `part as f32 * 100.0 / whole as f32` computes it,
/// shown with one decimal; `0.0` where `whole` is zero.
pub open spec fn percent_f32_text(part: u64, whole: u64) -> Seq<char> {
    if whole == 0 {
        "0.0"@
    } else {
        fixed_text(
            quotient_digits(f32_of_int(f32_of_int(part as nat) * 100), f32_of_int(whole as nat), 1, 23),
            1,
        )
    }
}

/// Appends the `f32` percentage of `part` in `whole`.
fn push_percent_f32(s: &mut String, part: u64, whole: u64)
    ensures
        final(s)@ == old(s)@ + percent_f32_text(part, whole),
{
    if whole == 0 {
        push_str(s, "0.0");
        return;
    }
    proof {
        lemma_exp2_table();
    }
    let a = float_of_u128(part as u128, 24);
    assert(a * 100 < 0x100_0000_0000_0000_0000) by {
        assert(a <= 0x1_0000_0000_0000_0000) by {
            crate::fixed::lemma_float_of_int_bound(part as nat, 24);
        }
    }
    let b = float_of_u128(a * 100, 24);
    let t = float_of_u128(whole as u128, 24);
    proof {
        crate::fixed::lemma_float_of_int_bound(whole as nat, 24);
        crate::fixed::lemma_float_of_int_pos(whole as nat, 24);
    }
    push_fixed(s, quotient_digits_exec(b, t, 1, 23), 1);
}

/// The video memory lines of a graphics card in the metrics report.
pub open spec fn vram_lines_text(used: u64, total: u64) -> Seq<char> {
    "VRAM          : "@ + format_bytes_spec(used) + " / "@ + format_bytes_spec(total) + " ("@
        + percent_f32_text(used, total) + "%)\n"@ + "Free VRAM     : "@ + format_bytes_spec(
        (total - used) as u64,
    ) + "\n"@
}

/// The video memory lines of a graphics card in the metrics report; the
/// free memory is what is not used, so no more may be used than there is.
pub fn vram_lines(used: u64, total: u64) -> (r: String)
    requires
        used <= total,
    ensures
        r@ == vram_lines_text(used, total),
{
    let mut r = String::new();
    push_str(&mut r, "VRAM          : ");
    push_str(&mut r, format_bytes(used).as_str());
    push_str(&mut r, " / ");
    push_str(&mut r, format_bytes(total).as_str());
    push_str(&mut r, " (");
    push_percent_f32(&mut r, used, total);
    push_str(&mut r, "%)\n");
    push_str(&mut r, "Free VRAM     : ");
    push_str(&mut r, format_bytes(total - used).as_str());
    push_str(&mut r, "\n");
    assert(r@ =~= vram_lines_text(used, total));
    r
}

/// Leaving out repeats keeps every name once: no name twice, every name of
/// the input, and nothing else.
pub proof fn law_first_occurrences(names: Seq<Seq<char>>)
    ensures
        first_occurrences(names).no_duplicates(),
        forall|k: int| 0 <= k < names.len() ==> first_occurrences(names).contains(#[trigger] names[k]),
        forall|k: int|
            0 <= k < first_occurrences(names).len() ==> names.contains(
                #[trigger] first_occurrences(names)[k],
            ),
        first_occurrences(names).len() <= names.len(),
    decreases names.len(),
{
    assert forall|k: int| 0 <= k < first_occurrences(names).len() implies names.contains(
        #[trigger] first_occurrences(names)[k],
    ) by {
        lemma_first_occurrences_from(names, k);
    }
    if names.len() > 0 {
        let p = names.drop_last();
        law_first_occurrences(p);
        let kept = first_occurrences(p);
        let r = first_occurrences(names);
        assert forall|k: int| 0 <= k < names.len() implies r.contains(#[trigger] names[k]) by {
            if k < names.len() - 1 {
                assert(names[k] == p[k]);
                assert(kept.contains(p[k]));
                let j = choose|j: int| 0 <= j < kept.len() && kept[j] == p[k];
                assert(r[j] == kept[j]);
            } else if !kept.contains(names.last()) {
                assert(r[r.len() - 1] == names[k]);
            }
        }
        if !kept.contains(names.last()) {
            assert forall|i: int, j: int| 0 <= i < r.len() && 0 <= j < r.len() && i != j implies r[i]
                != r[j] by {
                if i < kept.len() && j < kept.len() {
                } else if i < kept.len() {
                    assert(kept.contains(kept[i]));
                } else {
                    assert(kept.contains(kept[j]));
                }
            }
        }
    }
}

/// What `before_paren` keeps: a start of the text with no `(` in it, the
/// whole text when it has none, and otherwise the part before its first `(`.
proof fn lemma_before_paren(s: Seq<char>)
    ensures
        !before_paren(s).contains('('),
        before_paren(s).len() <= s.len(),
        s.subrange(0, before_paren(s).len() as int) == before_paren(s),
        before_paren(s).len() < s.len() ==> s[before_paren(s).len() as int] == '(',
    decreases s.len(),
{
    if s.len() > 0 && s[0] != '(' {
        let t = s.drop_first();
        lemma_before_paren(t);
        let b = before_paren(s);
        assert(b == seq![s[0]] + before_paren(t));
        assert(s.subrange(0, b.len() as int) =~= seq![s[0]] + t.subrange(0, before_paren(t).len() as int));
        if b.contains('(') {
            let i = choose|i: int| 0 <= i < b.len() && b[i] == '(';
            if i > 0 {
                assert(before_paren(t)[i - 1] == '(');
            }
        }
        if b.len() < s.len() {
            assert(s[b.len() as int] == t[before_paren(t).len() as int]);
        }
    } else if s.len() > 0 {
        assert(s.subrange(0, 0) =~= Seq::<char>::empty());
    }
}

/// A graphics adapter is listed under its reported name cut before the
/// first `(` (the part that drivers append, such as a version or a bus),
/// without surrounding white space: the whole name, trimmed, where it has
/// no `(`.
pub proof fn law_gpu_name(raw: Seq<char>)
    ensures
        !raw.contains('(') ==> gpu_name_spec(raw) == trim(raw),
        forall|i: int|
            0 <= i < raw.len() && raw[i] == '(' && !raw.subrange(0, i).contains('(') ==> gpu_name_spec(raw)
                == trim(#[trigger] raw.subrange(0, i)),
{
    lemma_before_paren(raw);
    let b = before_paren(raw);
    if !raw.contains('(') {
        if b.len() < raw.len() {
            assert(raw[b.len() as int] == '(');
        }
        assert(raw.subrange(0, raw.len() as int) =~= raw);
    }
    assert forall|i: int|
        0 <= i < raw.len() && raw[i] == '(' && !raw.subrange(0, i).contains('(') implies gpu_name_spec(raw)
            == trim(#[trigger] raw.subrange(0, i)) by {
        if b.len() < i {
            assert(raw.subrange(0, i)[b.len() as int] == raw[b.len() as int]);
        } else if b.len() > i {
            assert(b[i] == raw[i]);
        }
    }
}

/// The uptime text splits the seconds into whole days, hours of the day
/// (below 24) and minutes of the hour (below 60), leaving less than a
/// minute over.
pub proof fn law_uptime_parts(seconds: u64)
    ensures
        exists|d: nat, h: nat, m: nat|
            #![trigger decimal(d), decimal(h), decimal(m)]
            {
                &&& format_uptime_spec(seconds) == decimal(d) + "d "@ + decimal(h) + "h "@
                    + decimal(m) + "m"@
                &&& h < 24 && m < 60
                &&& d * 86400 + h * 3600 + m * 60 <= seconds < d * 86400 + h * 3600 + m * 60 + 60
            },
{
    let d = (seconds / 86400) as nat;
    let h = ((seconds % 86400) / 3600) as nat;
    let m = ((seconds % 3600) / 60) as nat;
    assert(d * 86400 + h * 3600 + m * 60 <= seconds < d * 86400 + h * 3600 + m * 60 + 60)
        by (nonlinear_arith)
        requires
            d == seconds / 86400,
            h == (seconds % 86400) / 3600,
            m == (seconds % 3600) / 60,
    ;
    assert(h < 24 && m < 60);
    assert(format_uptime_spec(seconds) == decimal(d) + "d "@ + decimal(h) + "h "@ + decimal(m) + "m"@);
}

/// A byte count is shown in the largest unit that it reaches: TB from
/// 2^40 bytes on, GB from 2^30, MB from 2^20, KB from 2^10, and below that
/// as the exact number of bytes.
pub proof fn law_byte_units(bytes: u64)
    ensures
        bytes >= 0x100_0000_0000 ==> exists|t: Seq<char>| #[trigger] (t + " TB"@) == format_bytes_spec(bytes),
        0x4000_0000 <= bytes < 0x100_0000_0000 ==> exists|t: Seq<char>|
            #[trigger] (t + " GB"@) == format_bytes_spec(bytes),
        0x10_0000 <= bytes < 0x4000_0000 ==> exists|t: Seq<char>| #[trigger] (t + " MB"@) == format_bytes_spec(bytes),
        1024 <= bytes < 0x10_0000 ==> exists|t: Seq<char>| #[trigger] (t + " KB"@) == format_bytes_spec(bytes),
        bytes < 1024 ==> format_bytes_spec(bytes) == decimal(bytes as nat) + " B"@,
{
    lemma_exp2_table();
    crate::fixed::lemma_exp2_small();
    lemma_exp2_mono(40, 52);
    crate::fixed::lemma_f64_threshold(bytes as nat, exp2(40));
    crate::fixed::lemma_f64_threshold(bytes as nat, exp2(30));
    crate::fixed::lemma_f64_threshold(bytes as nat, exp2(20));
    crate::fixed::lemma_f64_threshold(bytes as nat, exp2(10));
    let v = f64_of_int(bytes as nat);
    if v >= exp2(40) {
        let t = fixed_text(rne(v * 100, exp2(40)), 2);
        assert(t + " TB"@ == format_bytes_spec(bytes));
    } else if v >= exp2(30) {
        let t = fixed_text(rne(v * 100, exp2(30)), 2);
        assert(t + " GB"@ == format_bytes_spec(bytes));
    } else if v >= exp2(20) {
        let t = fixed_text(rne(v * 100, exp2(20)), 2);
        assert(t + " MB"@ == format_bytes_spec(bytes));
    } else if v >= exp2(10) {
        let t = fixed_text(rne(v * 100, exp2(10)), 2);
        assert(t + " KB"@ == format_bytes_spec(bytes));
    }
}

} // verus!
