//! Character-sequence helpers shared by the parsers and renderers.
use vstd::prelude::*;

verus! {

/// `String::push` appends one character at the end.
pub assume_specification[ String::push ](s: &mut String, ch: char)
    ensures
        final(s)@ == old(s)@.push(ch),
;

/// The ASCII digit that stands for `d` (`d < 10`).
pub open spec fn digit_char(d: nat) -> char {
    (48 + d) as char
}

/// Decimal digits of `n`, most significant first, without leading zeros.
pub open spec fn decimal(n: nat) -> Seq<char>
    decreases n,
{
    if n < 10 {
        seq![digit_char(n)]
    } else {
        decimal(n / 10).push(digit_char(n % 10))
    }
}

pub fn digit(d: u64) -> (c: char)
    requires
        d < 10,
    ensures
        c == digit_char(d as nat),
{
    ((48 + d) as u8) as char
}

/// Appends the decimal digits of `n`.
pub fn push_decimal(s: &mut String, n: u128)
    ensures
        final(s)@ == old(s)@ + decimal(n as nat),
    decreases n,
{
    if n >= 10 {
        push_decimal(s, n / 10);
    }
    let d = (n % 10) as u64;
    s.push(digit(d));
    proof {
        assert(final(s)@ =~= old(s)@ + decimal(n as nat));
    }
}


/// The characters of `s`, in order.
pub fn chars_of(s: &str) -> (r: Vec<char>)
    ensures
        r@ == s@,
{
    let n = s.unicode_len();
    let mut r: Vec<char> = Vec::new();
    let mut i: usize = 0;
    while i < n
        invariant
            n == s@.len(),
            i <= n,
            r@ == s@.subrange(0, i as int),
        decreases n - i,
    {
        r.push(s.get_char(i));
        i += 1;
        assert(r@ =~= s@.subrange(0, i as int));
    }
    assert(s@.subrange(0, n as int) =~= s@);
    r
}

/// A `String` holding exactly the characters `c`.
pub fn string_of(c: &[char]) -> (r: String)
    ensures
        r@ == c@,
{
    let mut r = String::new();
    let mut i: usize = 0;
    while i < c.len()
        invariant
            i <= c@.len(),
            r@ == c@.subrange(0, i as int),
        decreases c@.len() - i,
    {
        r.push(c[i]);
        i += 1;
        assert(r@ =~= c@.subrange(0, i as int));
    }
    assert(c@.subrange(0, c@.len() as int) =~= c@);
    r
}

/// `p` occurs in `s` starting at index `i`.
pub open spec fn occurs_at(s: Seq<char>, p: Seq<char>, i: int) -> bool {
    0 <= i && i + p.len() <= s.len() && s.subrange(i, i + p.len()) == p
}

/// `s` begins with `p`.
pub open spec fn has_prefix(s: Seq<char>, p: Seq<char>) -> bool {
    occurs_at(s, p, 0)
}

/// `p` occurs somewhere in `s`.
pub open spec fn has_infix(s: Seq<char>, p: Seq<char>) -> bool {
    exists|i: int| occurs_at(s, p, i)
}

/// Whether `p` occurs in `s` at index `i`.
pub fn occurs_at_exec(s: &[char], p: &[char], i: usize) -> (r: bool)
    ensures
        r == occurs_at(s@, p@, i as int),
{
    if i > s.len() || p.len() > s.len() - i {
        return false;
    }
    let mut k: usize = 0;
    while k < p.len()
        invariant
            i + p@.len() <= s@.len(),
            s@.len() == s.len(),
            k <= p@.len(),
            forall|j: int| 0 <= j < k ==> s@[i + j] == p@[j],
        decreases p@.len() - k,
    {
        if s[i + k] != p[k] {
            assert(s@.subrange(i as int, i + p@.len())[k as int] != p@[k as int]);
            return false;
        }
        k += 1;
    }
    assert(s@.subrange(i as int, i + p@.len()) =~= p@);
    true
}

/// Whether `s` begins with `p`.
pub fn starts_with_chars(s: &[char], p: &[char]) -> (r: bool)
    ensures
        r == has_prefix(s@, p@),
{
    occurs_at_exec(s, p, 0)
}

/// Whether `p` occurs anywhere in `s`.
pub fn contains_chars(s: &[char], p: &[char]) -> (r: bool)
    ensures
        r == has_infix(s@, p@),
{
    if p.len() == 0 {
        assert(s@.subrange(0, 0) =~= p@);
        assert(occurs_at(s@, p@, 0));
        return true;
    }
    if p.len() > s.len() {
        assert forall|j: int| !occurs_at(s@, p@, j) by {}
        return false;
    }
    let m = s.len() - p.len();
    let mut i: usize = 0;
    while i <= m
        invariant
            m + p@.len() == s@.len(),
            m < s.len(),
            p@.len() > 0,
            i <= m + 1,
            forall|j: int| 0 <= j < i ==> !occurs_at(s@, p@, j),
        decreases m + 1 - i,
    {
        if occurs_at_exec(s, p, i) {
            return true;
        }
        i += 1;
    }
    assert forall|j: int| !occurs_at(s@, p@, j) by {
        if 0 <= j && j + p@.len() <= s@.len() {
            assert(j < i);
        }
    }
    false
}

/// Whether the text `s` contains the text `p`.
pub fn str_contains(s: &str, p: &str) -> (r: bool)
    ensures
        r == has_infix(s@, p@),
{
    let sc = chars_of(s);
    let pc = chars_of(p);
    contains_chars(sc.as_slice(), pc.as_slice())
}

/// Whether the text `s` equals the text `p`.
pub fn str_equal(s: &str, p: &str) -> (r: bool)
    ensures
        r == (s@ == p@),
{
    let sc = chars_of(s);
    let pc = chars_of(p);
    if sc.len() != pc.len() {
        return false;
    }
    let r = starts_with_chars(sc.as_slice(), pc.as_slice());
    assert(sc@.subrange(0, pc@.len() as int) =~= sc@);
    r
}

/// What `str::to_lowercase` returns for a text; the Unicode case tables
/// that decide it are not spelled out here.
pub uninterp spec fn lowercase(s: Seq<char>) -> Seq<char>;

/// Calls `str::to_lowercase`: the result is the name `lowercase` applied to
/// the text's characters, and nothing more about it is claimed.
#[verifier::external_body]
pub fn to_lower(s: &str) -> (r: String)
    ensures
        r@ == lowercase(s@),
{
    s.to_lowercase()
}

/// The characters with the Unicode `White_Space` property, the set that
/// `char::is_whitespace` tests.
pub open spec fn is_space(c: char) -> bool {
    let u = c as u32;
    ||| (9 <= u && u <= 13)
    ||| u == 32
    ||| u == 0x85
    ||| u == 0xA0
    ||| u == 0x1680
    ||| (0x2000 <= u && u <= 0x200A)
    ||| u == 0x2028
    ||| u == 0x2029
    ||| u == 0x202F
    ||| u == 0x205F
    ||| u == 0x3000
}

pub fn is_space_exec(c: char) -> (r: bool)
    ensures
        r == is_space(c),
{
    let u = c as u32;
    (9 <= u && u <= 13) || u == 32 || u == 0x85 || u == 0xA0 || u == 0x1680 || (0x2000 <= u
        && u <= 0x200A) || u == 0x2028 || u == 0x2029 || u == 0x202F || u == 0x205F || u
        == 0x3000
}

/// `s` without its leading white space.
pub open spec fn trim_start(s: Seq<char>) -> Seq<char>
    decreases s.len(),
{
    if s.len() > 0 && is_space(s[0]) {
        trim_start(s.drop_first())
    } else {
        s
    }
}

/// `s` without its trailing white space.
pub open spec fn trim_end(s: Seq<char>) -> Seq<char>
    decreases s.len(),
{
    if s.len() > 0 && is_space(s.last()) {
        trim_end(s.drop_last())
    } else {
        s
    }
}

/// `s` without leading and trailing white space, as `str::trim` gives it.
pub open spec fn trim(s: Seq<char>) -> Seq<char> {
    trim_end(trim_start(s))
}

proof fn lemma_trim_start_skip(s: Seq<char>, i: int)
    requires
        0 <= i <= s.len(),
        forall|j: int| 0 <= j < i ==> is_space(#[trigger] s[j]),
    ensures
        trim_start(s) == trim_start(s.subrange(i, s.len() as int)),
    decreases i,
{
    if i > 0 {
        assert(s.drop_first() =~= s.subrange(1, s.len() as int));
        lemma_trim_start_skip(s.drop_first(), i - 1);
        assert(s.drop_first().subrange(i - 1, s.drop_first().len() as int) =~= s.subrange(
            i,
            s.len() as int,
        ));
    } else {
        assert(s.subrange(0, s.len() as int) =~= s);
    }
}

pub proof fn lemma_trim_end_cut(s: Seq<char>, e: int)
    requires
        0 <= e <= s.len(),
        forall|j: int| e <= j < s.len() ==> is_space(#[trigger] s[j]),
    ensures
        trim_end(s) == trim_end(s.subrange(0, e)),
    decreases s.len() - e,
{
    if e < s.len() {
        assert(s.drop_last() =~= s.subrange(0, s.len() - 1));
        lemma_trim_end_cut(s.drop_last(), e);
        assert(s.drop_last().subrange(0, e) =~= s.subrange(0, e));
    } else {
        assert(s.subrange(0, e) =~= s);
    }
}

/// The characters of `s` without leading and trailing white space.
pub fn trim_chars(s: &[char]) -> (r: Vec<char>)
    ensures
        r@ == trim(s@),
{
    let n = s.len();
    let mut b: usize = 0;
    while b < n && is_space_exec(s[b])
        invariant
            n == s@.len(),
            b <= n,
            forall|j: int| 0 <= j < b ==> is_space(#[trigger] s@[j]),
        decreases n - b,
    {
        b += 1;
    }
    proof {
        lemma_trim_start_skip(s@, b as int);
    }
    let ghost rest = s@.subrange(b as int, n as int);
    assert(rest.len() == 0 || !is_space(rest[0]));
    assert(trim_start(rest) == rest);
    let mut e: usize = n;
    while e > b && is_space_exec(s[e - 1])
        invariant
            n == s@.len(),
            b <= e <= n,
            forall|j: int| e <= j < n ==> is_space(#[trigger] s@[j]),
        decreases e,
    {
        e -= 1;
    }
    proof {
        let t = s@.subrange(b as int, n as int);
        assert forall|j: int| e - b <= j < t.len() implies is_space(#[trigger] t[j]) by {
            assert(t[j] == s@[b + j]);
        }
        lemma_trim_end_cut(t, e - b);
        let u = t.subrange(0, e - b);
        assert(u =~= s@.subrange(b as int, e as int));
        assert(u.len() == 0 || !is_space(u.last()));
        assert(trim_end(u) == u);
    }
    let mut r: Vec<char> = Vec::new();
    let mut i: usize = b;
    while i < e
        invariant
            b <= i <= e <= n,
            n == s@.len(),
            r@ == s@.subrange(b as int, i as int),
        decreases e - i,
    {
        r.push(s[i]);
        i += 1;
        assert(r@ =~= s@.subrange(b as int, i as int));
    }
    r
}

/// The text `s` without its trailing white space.
pub fn trim_end_str(s: &str) -> (r: Vec<char>)
    ensures
        r@ == trim_end(s@),
{
    let c = chars_of(s);
    let n = c.len();
    let mut e: usize = n;
    while e > 0 && is_space_exec(c[e - 1])
        invariant
            n == c@.len(),
            e <= n,
            forall|j: int| e <= j < n ==> is_space(#[trigger] c@[j]),
        decreases e,
    {
        e -= 1;
    }
    proof {
        lemma_trim_end_cut(c@, e as int);
        let u = c@.subrange(0, e as int);
        assert(u.len() == 0 || !is_space(u.last()));
        assert(trim_end(u) == u);
    }
    let mut r: Vec<char> = Vec::new();
    let mut i: usize = 0;
    while i < e
        invariant
            i <= e <= n,
            n == c@.len(),
            r@ == c@.subrange(0, i as int),
        decreases e - i,
    {
        r.push(c[i]);
        i += 1;
        assert(r@ =~= c@.subrange(0, i as int));
    }
    r
}

/// The text `s` without leading and trailing white space.
pub fn trim_str(s: &str) -> (r: Vec<char>)
    ensures
        r@ == trim(s@),
{
    let c = chars_of(s);
    trim_chars(c.as_slice())
}


/// The lowercase hexadecimal digit that stands for `d` (`d < 16`).
pub open spec fn hex_char(d: nat) -> char {
    if d < 10 {
        digit_char(d)
    } else {
        (87 + d) as char
    }
}

/// `n` in lowercase hexadecimal, zero-padded to four digits (`{:04x}`).
pub open spec fn hex4(n: u16) -> Seq<char> {
    seq![
        hex_char((n / 4096) as nat),
        hex_char(((n / 256) % 16) as nat),
        hex_char(((n / 16) % 16) as nat),
        hex_char((n % 16) as nat),
    ]
}

pub fn hex_digit(d: u16) -> (c: char)
    requires
        d < 16,
    ensures
        c == hex_char(d as nat),
{
    if d < 10 {
        ((48 + d) as u8) as char
    } else {
        ((87 + d) as u8) as char
    }
}

/// Appends `n` as four lowercase hexadecimal digits.
pub fn push_hex4(s: &mut String, n: u16)
    ensures
        final(s)@ == old(s)@ + hex4(n),
{
    s.push(hex_digit(n / 4096));
    s.push(hex_digit((n / 256) % 16));
    s.push(hex_digit((n / 16) % 16));
    s.push(hex_digit(n % 16));
    proof {
        assert(final(s)@ =~= old(s)@ + hex4(n));
    }
}

/// The characters of an optional text, none for `None` (`unwrap_or_default`).
pub open spec fn text_or_empty(s: Option<String>) -> Seq<char> {
    match s {
        Some(t) => t@,
        None => Seq::empty(),
    }
}

/// Appends the text `t`.
pub fn push_str(s: &mut String, t: &str)
    ensures
        final(s)@ == old(s)@ + t@,
{
    s.append(t);
}


/// `s` with every occurrence of `p` (taken from the left, without overlap)
/// replaced by `r`, as `str::replace` gives it.
pub open spec fn replace_all(s: Seq<char>, p: Seq<char>, r: Seq<char>) -> Seq<char>
    decreases s.len(),
{
    if s.len() == 0 || p.len() == 0 {
        s
    } else if has_prefix(s, p) {
        r + replace_all(s.subrange(p.len() as int, s.len() as int), p, r)
    } else {
        seq![s[0]] + replace_all(s.drop_first(), p, r)
    }
}

/// `s` with every occurrence of `p` replaced by `r` (`p` not empty).
pub fn replace_chars(s: &[char], p: &[char], r: &[char]) -> (out: Vec<char>)
    requires
        p@.len() > 0,
    ensures
        out@ == replace_all(s@, p@, r@),
{
    let mut out: Vec<char> = Vec::new();
    let mut i: usize = 0;
    assert(s@.subrange(0, s@.len() as int) =~= s@);
    while i < s.len()
        invariant
            i <= s@.len(),
            p@.len() > 0,
            replace_all(s@, p@, r@) == out@ + replace_all(
                s@.subrange(i as int, s@.len() as int),
                p@,
                r@,
            ),
        decreases s@.len() - i,
    {
        let ghost rest = s@.subrange(i as int, s@.len() as int);
        if occurs_at_exec(s, p, i) {
            assert(rest.subrange(0, p@.len() as int) =~= s@.subrange(i as int, i + p@.len()));
            assert(has_prefix(rest, p@));
            assert(rest.subrange(p@.len() as int, rest.len() as int) =~= s@.subrange(
                i + p@.len(),
                s@.len() as int,
            ));
            let ghost before = out@;
            let mut k: usize = 0;
            while k < r.len()
                invariant
                    k <= r@.len(),
                    out@ == before + r@.subrange(0, k as int),
                decreases r@.len() - k,
            {
                out.push(r[k]);
                k += 1;
                assert(out@ =~= before + r@.subrange(0, k as int));
            }
            assert(r@.subrange(0, r@.len() as int) =~= r@);
            assert(before + (r@ + replace_all(s@.subrange(i + p@.len(), s@.len() as int), p@, r@))
                =~= out@ + replace_all(s@.subrange(i + p@.len(), s@.len() as int), p@, r@));
            i = i + p.len();
        } else {
            proof {
                if p@.len() <= rest.len() {
                    assert(rest.subrange(0, p@.len() as int) =~= s@.subrange(
                        i as int,
                        i + p@.len(),
                    ));
                }
            }
            assert(!has_prefix(rest, p@));
            assert(rest.drop_first() =~= s@.subrange(i + 1, s@.len() as int));
            let ghost before = out@;
            out.push(s[i]);
            assert(before + (seq![s@[i as int]] + replace_all(rest.drop_first(), p@, r@))
                =~= out@ + replace_all(rest.drop_first(), p@, r@));
            i = i + 1;
        }
    }
    assert(s@.subrange(i as int, s@.len() as int) =~= Seq::<char>::empty());
    assert(out@ + Seq::<char>::empty() =~= out@);
    out
}

/// The length of the run of non-white-space characters that `s` starts with.
pub open spec fn word_len(s: Seq<char>) -> nat
    decreases s.len(),
{
    if s.len() == 0 || is_space(s[0]) {
        0
    } else {
        1 + word_len(s.drop_first())
    }
}

/// The white-space separated words of `s`, as `str::split_whitespace`
/// gives them.
pub open spec fn words(s: Seq<char>) -> Seq<Seq<char>>
    decreases s.len(),
{
    let t = trim_start(s);
    if t.len() == 0 {
        Seq::empty()
    } else {
        let n = word_len(t);
        proof {
            lemma_trim_start_first(s);
            lemma_word_len_le(t);
        }
        seq![t.subrange(0, n as int)] + words(t.subrange(n as int, t.len() as int))
    }
}

/// `ws` joined with single spaces.
pub open spec fn join_spaced(ws: Seq<Seq<char>>) -> Seq<char>
    decreases ws.len(),
{
    if ws.len() == 0 {
        Seq::empty()
    } else if ws.len() == 1 {
        ws[0]
    } else {
        ws[0] + " "@ + join_spaced(ws.drop_first())
    }
}

pub proof fn lemma_trim_start_first(s: Seq<char>)
    ensures
        trim_start(s).len() <= s.len(),
        trim_start(s).len() > 0 ==> !is_space(trim_start(s)[0]),
    decreases s.len(),
{
    if s.len() > 0 && is_space(s[0]) {
        lemma_trim_start_first(s.drop_first());
    }
}

pub proof fn lemma_word_len_le(s: Seq<char>)
    ensures
        word_len(s) <= s.len(),
        s.len() > 0 && !is_space(s[0]) ==> word_len(s) >= 1,
    decreases s.len(),
{
    if s.len() > 0 && !is_space(s[0]) {
        lemma_word_len_le(s.drop_first());
    }
}

proof fn lemma_trim_start_len(s: Seq<char>)
    ensures
        trim_start(s).len() <= s.len(),
        trim_start(s) == s.subrange(s.len() - trim_start(s).len(), s.len() as int),
    decreases s.len(),
{
    if s.len() > 0 && is_space(s[0]) {
        lemma_trim_start_len(s.drop_first());
        assert(s.drop_first().subrange(
            s.drop_first().len() - trim_start(s.drop_first()).len(),
            s.drop_first().len() as int,
        ) =~= s.subrange(s.len() - trim_start(s).len(), s.len() as int));
    } else {
        assert(s.subrange(0, s.len() as int) =~= s);
    }
}

proof fn lemma_word_len(s: Seq<char>, k: int)
    requires
        0 <= k <= s.len(),
        forall|j: int| 0 <= j < k ==> !is_space(#[trigger] s[j]),
        k == s.len() || is_space(s[k]),
    ensures
        word_len(s) == k,
    decreases k,
{
    if k > 0 {
        lemma_word_len(s.drop_first(), k - 1);
    }
}

/// The words of `s[i..]`, each as a vector of characters.
fn words_from(s: &[char], i: usize) -> (r: Vec<Vec<char>>)
    requires
        i <= s@.len(),
    ensures
        r@.len() == words(s@.subrange(i as int, s@.len() as int)).len(),
        forall|k: int| 0 <= k < r@.len() ==> #[trigger] r@[k]@ == words(
            s@.subrange(i as int, s@.len() as int),
        )[k],
    decreases s@.len() - i,
{
    let ghost rest = s@.subrange(i as int, s@.len() as int);
    let mut b: usize = i;
    while b < s.len() && is_space_exec(s[b])
        invariant
            i <= b <= s@.len(),
            forall|j: int| i <= j < b ==> is_space(#[trigger] s@[j]),
        decreases s@.len() - b,
    {
        b += 1;
    }
    proof {
        assert forall|j: int| 0 <= j < b - i implies is_space(#[trigger] rest[j]) by {
            assert(rest[j] == s@[i + j]);
        }
        lemma_trim_start_skip(rest, b - i);
        assert(rest.subrange(b - i, rest.len() as int) =~= s@.subrange(b as int, s@.len() as int));
        let t = s@.subrange(b as int, s@.len() as int);
        assert(t.len() == 0 || !is_space(t[0]));
        assert(trim_start(t) == t);
    }
    let ghost t = s@.subrange(b as int, s@.len() as int);
    if b == s.len() {
        return Vec::new();
    }
    let mut e: usize = b;
    let mut w: Vec<char> = Vec::new();
    while e < s.len() && !is_space_exec(s[e])
        invariant
            b <= e <= s@.len(),
            forall|j: int| b <= j < e ==> !is_space(#[trigger] s@[j]),
            w@ == s@.subrange(b as int, e as int),
        decreases s@.len() - e,
    {
        w.push(s[e]);
        e += 1;
        assert(w@ =~= s@.subrange(b as int, e as int));
    }
    proof {
        assert forall|j: int| 0 <= j < e - b implies !is_space(#[trigger] t[j]) by {
            assert(t[j] == s@[b + j]);
        }
        lemma_word_len(t, e - b);
        assert(t.subrange(0, e - b) =~= w@);
        assert(t.subrange(e - b, t.len() as int) =~= s@.subrange(e as int, s@.len() as int));
    }
    let more = words_from(s, e);
    let mut r: Vec<Vec<char>> = Vec::new();
    r.push(w);
    let mut k: usize = 0;
    let ghost tail = words(s@.subrange(e as int, s@.len() as int));
    assert(words(rest) == seq![w@] + tail);
    while k < more.len()
        invariant
            k <= more@.len(),
            more@.len() == tail.len(),
            forall|j: int| 0 <= j < more@.len() ==> #[trigger] more@[j]@ == tail[j],
            r@.len() == k + 1,
            r@[0]@ == w@,
            forall|j: int| 1 <= j < r@.len() ==> #[trigger] r@[j]@ == tail[j - 1],
        decreases more@.len() - k,
    {
        r.push(more[k].clone());
        k += 1;
    }
    r
}

/// `s` with its words joined by single spaces, as
/// `split_whitespace().collect::<Vec<_>>().join(" ")` gives it.
pub fn collapse_spaces(s: &[char]) -> (r: Vec<char>)
    ensures
        r@ == join_spaced(words(s@)),
{
    let ws = words_from(s, 0);
    assert(s@.subrange(0, s@.len() as int) =~= s@);
    let ghost all = words(s@);
    let mut r: Vec<char> = Vec::new();
    let n = ws.len();
    if n == 0 {
        return r;
    }
    // join from the back: r holds join_spaced(all.subrange(k, n))
    let mut k: usize = n - 1;
    r = ws[k].clone();
    assert(all.subrange(k as int, n as int) =~= seq![all[k as int]]);
    while k > 0
        invariant
            k < n,
            n == all.len(),
            ws@.len() == n,
            forall|j: int| 0 <= j < n ==> #[trigger] ws@[j]@ == all[j],
            r@ == join_spaced(all.subrange(k as int, n as int)),
        decreases k,
    {
        k -= 1;
        let ghost tail = r@;
        let mut next: Vec<char> = ws[k].clone();
        next.push(' ');
        let mut j: usize = 0;
        let ghost head = next@;
        while j < r.len()
            invariant
                j <= r@.len(),
                next@ == head + r@.subrange(0, j as int),
            decreases r@.len() - j,
        {
            next.push(r[j]);
            j += 1;
            assert(next@ =~= head + r@.subrange(0, j as int));
        }
        assert(r@.subrange(0, r@.len() as int) =~= r@);
        let ghost part = all.subrange(k as int, n as int);
        assert(part.drop_first() =~= all.subrange(k + 1, n as int));
        assert(part[0] == all[k as int]);
        assert(" "@ =~= seq![' ']) by {
            reveal_strlit(" ");
        }
        assert(next@ =~= part[0] + " "@ + join_spaced(part.drop_first()));
        r = next;
    }
    assert(all.subrange(0, n as int) =~= all);
    r
}


/// `parts` in order with `sep` between neighbours.
pub open spec fn join_with(parts: Seq<Seq<char>>, sep: Seq<char>) -> Seq<char>
    decreases parts.len(),
{
    if parts.len() == 0 {
        Seq::empty()
    } else if parts.len() == 1 {
        parts[0]
    } else {
        join_with(parts.drop_last(), sep) + sep + parts.last()
    }
}

/// The views of a list of strings.
pub open spec fn string_views(v: Seq<String>) -> Seq<Seq<char>> {
    v.map_values(|s: String| s@)
}

/// Appends `parts` with `sep` between neighbours.
pub fn push_joined(out: &mut String, parts: &Vec<String>, sep: &str)
    ensures
        final(out)@ == old(out)@ + join_with(string_views(parts@), sep@),
{
    let ghost start = out@;
    let ghost all = string_views(parts@);
    let mut i: usize = 0;
    assert(all.subrange(0, 0) =~= Seq::<Seq<char>>::empty());
    assert(out@ =~= start + join_with(all.subrange(0, 0), sep@));
    while i < parts.len()
        invariant
            i <= parts@.len(),
            all == string_views(parts@),
            out@ == start + join_with(all.subrange(0, i as int), sep@),
        decreases parts@.len() - i,
    {
        let ghost pre = all.subrange(0, i as int);
        let ghost next = all.subrange(0, i + 1);
        assert(next.drop_last() =~= pre);
        assert(next.last() == parts@[i as int]@);
        if i > 0 {
            out.append(sep);
        }
        out.append(parts[i].as_str());
        proof {
            if i == 0 {
                assert(next =~= seq![parts@[0]@]);
            }
        }
        assert(out@ =~= start + join_with(next, sep@));
        i += 1;
    }
    assert(all.subrange(0, parts@.len() as int) =~= all);
}

/// All of `parts` one after another.
pub open spec fn concat_all(parts: Seq<Seq<char>>) -> Seq<char>
    decreases parts.len(),
{
    if parts.len() == 0 {
        Seq::empty()
    } else {
        concat_all(parts.drop_last()) + parts.last()
    }
}

/// A text that occurs in `a`, or in `b`, occurs in `a + b`.
pub proof fn lemma_infix_of_concat(a: Seq<char>, b: Seq<char>, p: Seq<char>)
    ensures
        has_infix(a, p) ==> has_infix(a + b, p),
        has_infix(b, p) ==> has_infix(a + b, p),
{
    if has_infix(a, p) {
        let i = choose|i: int| occurs_at(a, p, i);
        assert((a + b).subrange(i, i + p.len()) =~= a.subrange(i, i + p.len()));
        assert(occurs_at(a + b, p, i));
    }
    if has_infix(b, p) {
        let i = choose|i: int| occurs_at(b, p, i);
        assert((a + b).subrange(a.len() + i, a.len() + i + p.len()) =~= b.subrange(i, i + p.len()));
        assert(occurs_at(a + b, p, a.len() + i));
    }
}

/// A text occurs in every text that it begins.
pub proof fn lemma_prefix_is_infix(s: Seq<char>, p: Seq<char>)
    requires
        has_prefix(s, p),
    ensures
        has_infix(s, p),
{
}

/// Each of `parts` occurs in all of them one after another.
pub proof fn lemma_part_in_concat_all(parts: Seq<Seq<char>>, j: int)
    requires
        0 <= j < parts.len(),
    ensures
        has_infix(concat_all(parts), parts[j]),
    decreases parts.len(),
{
    let last = parts.len() - 1;
    if j == last {
        assert(occurs_at(parts[j], parts[j], 0)) by {
            assert(parts[j].subrange(0, parts[j].len() as int) =~= parts[j]);
        }
        lemma_infix_of_concat(concat_all(parts.drop_last()), parts.last(), parts[j]);
    } else {
        assert(parts.drop_last()[j] == parts[j]);
        lemma_part_in_concat_all(parts.drop_last(), j);
        lemma_infix_of_concat(concat_all(parts.drop_last()), parts.last(), parts[j]);
    }
}

/// Each of `parts` occurs in them joined with `sep`.
pub proof fn lemma_part_in_join(parts: Seq<Seq<char>>, sep: Seq<char>, j: int)
    requires
        0 <= j < parts.len(),
    ensures
        has_infix(join_with(parts, sep), parts[j]),
    decreases parts.len(),
{
    assert(occurs_at(parts[j], parts[j], 0)) by {
        assert(parts[j].subrange(0, parts[j].len() as int) =~= parts[j]);
    }
    if parts.len() > 1 {
        let front = join_with(parts.drop_last(), sep) + sep;
        if j == parts.len() - 1 {
            lemma_infix_of_concat(front, parts.last(), parts[j]);
        } else {
            assert(parts.drop_last()[j] == parts[j]);
            lemma_part_in_join(parts.drop_last(), sep, j);
            lemma_infix_of_concat(join_with(parts.drop_last(), sep), sep, parts[j]);
            lemma_infix_of_concat(front, parts.last(), parts[j]);
        }
    }
}

/// Appends all of `parts` one after another.
pub fn push_all(out: &mut String, parts: &Vec<String>)
    ensures
        final(out)@ == old(out)@ + concat_all(string_views(parts@)),
{
    let ghost start = out@;
    let ghost all = string_views(parts@);
    let mut i: usize = 0;
    assert(all.subrange(0, 0) =~= Seq::<Seq<char>>::empty());
    assert(out@ =~= start + concat_all(all.subrange(0, 0)));
    while i < parts.len()
        invariant
            i <= parts@.len(),
            all == string_views(parts@),
            out@ == start + concat_all(all.subrange(0, i as int)),
        decreases parts@.len() - i,
    {
        let ghost next = all.subrange(0, i + 1);
        assert(next.drop_last() =~= all.subrange(0, i as int));
        out.append(parts[i].as_str());
        assert(out@ =~= start + concat_all(next));
        i += 1;
    }
    assert(all.subrange(0, parts@.len() as int) =~= all);
}

/// A signed whole number in decimal, with `-` before a negative one.
pub open spec fn signed_decimal(x: int) -> Seq<char> {
    if x < 0 {
        seq!['-'] + decimal((-x) as nat)
    } else {
        decimal(x as nat)
    }
}

/// Appends `x` in decimal.
pub fn push_signed(s: &mut String, x: i32)
    ensures
        final(s)@ == old(s)@ + signed_decimal(x as int),
{
    if x < 0 {
        s.push('-');
        let m: i64 = -(x as i64);
        push_decimal(s, m as u128);
    } else {
        push_decimal(s, x as u128);
    }
    proof {
        assert(final(s)@ =~= old(s)@ + signed_decimal(x as int));
    }
}

/// `Yes` or `No`.
pub open spec fn yes_no(b: bool) -> Seq<char> {
    if b {
        "Yes"@
    } else {
        "No"@
    }
}

pub fn push_yes_no(s: &mut String, b: bool)
    ensures
        final(s)@ == old(s)@ + yes_no(b),
{
    if b {
        s.append("Yes");
    } else {
        s.append("No");
    }
}


/// Why a text is not an unsigned whole number (`std::num::IntErrorKind`).
#[derive(Debug, Clone, Copy, PartialEq, Eq, Structural)]
pub enum IntErrorKind {
    Empty,
    InvalidDigit,
    PosOverflow,
}

impl IntErrorKind {
    /// The message that `ParseIntError` shows for this kind.
    pub fn message(&self) -> (r: &'static str)
        ensures
            r@ == int_error_message(*self),
    {
        match self {
            IntErrorKind::Empty => "cannot parse integer from empty string",
            IntErrorKind::InvalidDigit => "invalid digit found in string",
            IntErrorKind::PosOverflow => "number too large to fit in target type",
        }
    }
}

pub open spec fn int_error_message(k: IntErrorKind) -> Seq<char> {
    match k {
        IntErrorKind::Empty => "cannot parse integer from empty string"@,
        IntErrorKind::InvalidDigit => "invalid digit found in string"@,
        IntErrorKind::PosOverflow => "number too large to fit in target type"@,
    }
}

pub open spec fn is_digit(c: char) -> bool {
    '0' <= c && c <= '9'
}

/// Reads the decimal digits `s` after the value `acc`, left to right: the
/// first character that is not a digit, or the first step past `max`, ends
/// the reading with that error.
pub open spec fn read_digits(s: Seq<char>, acc: nat, max: nat) -> Result<nat, IntErrorKind>
    decreases s.len(),
{
    if s.len() == 0 {
        Ok(acc)
    } else if !is_digit(s[0]) {
        Err(IntErrorKind::InvalidDigit)
    } else if acc * 10 + (s[0] as nat - 48) > max {
        Err(IntErrorKind::PosOverflow)
    } else {
        read_digits(s.drop_first(), (acc * 10 + (s[0] as nat - 48)) as nat, max)
    }
}

/// The unsigned number that `s` spells, as `str::parse` for an unsigned
/// type with maximum `max` reads it: an optional `+`, then decimal digits.
pub open spec fn parse_unsigned(s: Seq<char>, max: nat) -> Result<nat, IntErrorKind> {
    if s.len() == 0 {
        Err(IntErrorKind::Empty)
    } else if (s[0] == '+' || s[0] == '-') && s.len() == 1 {
        Err(IntErrorKind::InvalidDigit)
    } else if s[0] == '+' {
        read_digits(s.drop_first(), 0, max)
    } else {
        read_digits(s, 0, max)
    }
}

/// Reads an unsigned number no greater than `max` from the characters `s`.
pub fn parse_unsigned_chars(s: &[char], max: u64) -> (r: Result<u64, IntErrorKind>)
    ensures
        match parse_unsigned(s@, max as nat) {
            Ok(v) => r == Ok::<u64, IntErrorKind>(v as u64) && v <= max,
            Err(e) => r == Err::<u64, IntErrorKind>(e),
        },
{
    if s.len() == 0 {
        return Err(IntErrorKind::Empty);
    }
    if (s[0] == '+' || s[0] == '-') && s.len() == 1 {
        return Err(IntErrorKind::InvalidDigit);
    }
    let start: usize = if s[0] == '+' {
        1
    } else {
        0
    };
    let ghost body = s@.subrange(start as int, s@.len() as int);
    proof {
        if start == 1 {
            assert(body =~= s@.drop_first());
        } else {
            assert(body =~= s@);
        }
        assert(parse_unsigned(s@, max as nat) == read_digits(body, 0, max as nat));
    }
    let mut acc: u64 = 0;
    let mut i: usize = start;
    while i < s.len()
        invariant
            start <= i <= s@.len(),
            acc <= max,
            parse_unsigned(s@, max as nat) == read_digits(body, 0, max as nat),
            read_digits(body, 0, max as nat) == read_digits(
                s@.subrange(i as int, s@.len() as int),
                acc as nat,
                max as nat,
            ),
        decreases s@.len() - i,
    {
        let ghost rest = s@.subrange(i as int, s@.len() as int);
        assert(rest[0] == s@[i as int]);
        let c = s[i];
        if !('0' <= c && c <= '9') {
            assert(!is_digit(rest[0]));
            return Err(IntErrorKind::InvalidDigit);
        }
        let d = (c as u32 - 48) as u64;
        assert(d == rest[0] as nat - 48);
        if d > max {
            assert(acc * 10 + d > max) by (nonlinear_arith)
                requires
                    d > max,
                    acc >= 0,
            ;
            return Err(IntErrorKind::PosOverflow);
        }
        if acc > (max - d) / 10 {
            assert(acc * 10 + d > max) by (nonlinear_arith)
                requires
                    acc > (max - d) / 10,
                    d <= max,
            ;
            return Err(IntErrorKind::PosOverflow);
        }
        assert(acc * 10 + d <= max) by (nonlinear_arith)
            requires
                acc <= (max - d) / 10,
                d <= max,
        ;
        assert(rest.drop_first() =~= s@.subrange(i + 1, s@.len() as int));
        acc = acc * 10 + d;
        i += 1;
    }
    assert(s@.subrange(i as int, s@.len() as int) =~= Seq::<char>::empty());
    Ok(acc)
}

/// Reading digits after appending one more character is reading the first
/// part and then that character.
pub proof fn lemma_read_digits_push(a: Seq<char>, c: char, acc: nat, max: nat)
    ensures
        read_digits(a.push(c), acc, max) == match read_digits(a, acc, max) {
            Ok(x) => read_digits(seq![c], x, max),
            Err(e) => Err(e),
        },
    decreases a.len(),
{
    if a.len() > 0 {
        assert(a.push(c).drop_first() =~= a.drop_first().push(c));
        if is_digit(a[0]) && acc * 10 + (a[0] as nat - 48) <= max {
            lemma_read_digits_push(
                a.drop_first(),
                c,
                (acc * 10 + (a[0] as nat - 48)) as nat,
                max,
            );
        }
    } else {
        assert(a.push(c) =~= seq![c]);
    }
}

/// Every character of the decimal digits of `n` is a digit.
pub proof fn lemma_decimal_digits(n: nat)
    ensures
        decimal(n).len() >= 1,
        forall|i: int| 0 <= i < decimal(n).len() ==> is_digit(#[trigger] decimal(n)[i]),
    decreases n,
{
    if n >= 10 {
        lemma_decimal_digits(n / 10);
    }
}

/// The decimal digits of `n` read back as `n`.
pub proof fn lemma_decimal_reads(n: nat, max: nat)
    requires
        n <= max,
    ensures
        read_digits(decimal(n), 0, max) == Ok::<nat, IntErrorKind>(n),
    decreases n,
{
    if n < 10 {
        let c = digit_char(n);
        assert(c as nat == 48 + n);
        assert(is_digit(c));
        assert(seq![c].drop_first() =~= Seq::<char>::empty());
        assert(read_digits(Seq::<char>::empty(), n, max) == Ok::<nat, IntErrorKind>(n));
        assert(decimal(n) == seq![c]);
    } else {
        lemma_decimal_reads(n / 10, max);
        lemma_read_digits_push(decimal(n / 10), digit_char(n % 10), 0, max);
        let c = digit_char(n % 10);
        assert(c as nat == 48 + n % 10);
        assert(is_digit(c));
        assert(seq![c].drop_first() =~= Seq::<char>::empty());
        assert((n / 10) * 10 + (n % 10) == n);
        assert(read_digits(Seq::<char>::empty(), n, max) == Ok::<nat, IntErrorKind>(n));
        assert(read_digits(seq![c], n / 10, max) == Ok::<nat, IntErrorKind>(n));
    }
}

/// The decimal digits of `n` are digits, and read back as `n` where `n`
/// is at most `max`.
pub proof fn lemma_decimal_facts(n: nat, max: nat)
    ensures
        decimal(n).len() >= 1,
        forall|i: int| 0 <= i < decimal(n).len() ==> is_digit(#[trigger] decimal(n)[i]),
        n <= max ==> parse_unsigned(decimal(n), max) == Ok::<nat, IntErrorKind>(n),
{
    lemma_decimal_digits(n);
    assert(is_digit(decimal(n)[0]));
    if n <= max {
        lemma_decimal_reads(n, max);
    }
}

} // verus!
