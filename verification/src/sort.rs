//! Stable sorting by a strict weak order, and the lexicographic order of texts.
use vstd::prelude::*;

verus! {

/// A type ordered by a strict weak order `precedes`: the order in which a
/// stable sort by the corresponding comparator leaves its values.
pub trait Ranked: Sized {
    /// `self` has to come strictly before `other`.
    spec fn precedes(&self, other: &Self) -> bool;

    proof fn precedes_irreflexive(a: &Self)
        ensures
            !a.precedes(a),
    ;

    proof fn precedes_transitive(a: &Self, b: &Self, c: &Self)
        requires
            a.precedes(b),
            b.precedes(c),
        ensures
            a.precedes(c),
    ;

    proof fn tie_transitive(a: &Self, b: &Self, c: &Self)
        requires
            !a.precedes(b),
            !b.precedes(a),
            !b.precedes(c),
            !c.precedes(b),
        ensures
            !a.precedes(c),
            !c.precedes(a),
    ;

    fn goes_before(&self, other: &Self) -> (r: bool)
        ensures
            r == self.precedes(other),
    ;
}

/// Neither of `a` and `b` has to come before the other.
pub open spec fn tied<T: Ranked>(a: T, b: T) -> bool {
    !a.precedes(&b) && !b.precedes(&a)
}

/// No value of `s` has to come before an earlier one.
pub open spec fn is_sorted<T: Ranked>(s: Seq<T>) -> bool {
    forall|i: int, j: int| 0 <= i < j < s.len() ==> !s[j].precedes(&s[i])
}

/// `perm` places the values of `input` into `output`: `output[k]` is
/// `input[perm[k]]`, each index of `input` used once, and tied values keep
/// the order they had in `input`.
pub open spec fn arrangement<T: Ranked>(input: Seq<T>, output: Seq<T>, perm: Seq<int>) -> bool {
    &&& perm.len() == input.len()
    &&& output.len() == input.len()
    &&& forall|k: int| 0 <= k < perm.len() ==> 0 <= #[trigger] perm[k] < input.len()
    &&& forall|k: int, l: int| 0 <= k < l < perm.len() ==> perm[k] != perm[l]
    &&& forall|k: int| 0 <= k < perm.len() ==> output[k] == input[#[trigger] perm[k]]
    &&& forall|k: int, l: int|
        0 <= k < l < perm.len() && tied(output[k], output[l]) ==> perm[k] < perm[l]
}

/// `output` is `input` sorted stably: sorted, holding the same values, with
/// tied values in the order they had.
pub open spec fn stably_sorted<T: Ranked>(input: Seq<T>, output: Seq<T>) -> bool {
    is_sorted(output) && exists|perm: Seq<int>| arrangement(input, output, perm)
}

/// Where `x` goes into the sorted `s`: before the first value that it has
/// to come before, at the end if there is none.
pub open spec fn insert_pos<T: Ranked>(s: Seq<T>, x: T) -> nat
    decreases s.len(),
{
    if s.len() == 0 {
        0
    } else if x.precedes(&s[0]) {
        0
    } else {
        1 + insert_pos(s.drop_first(), x)
    }
}

/// `s` sorted stably: each value in turn goes after every value already
/// placed that it does not have to come before.
pub open spec fn sorted_spec<T: Ranked>(s: Seq<T>) -> Seq<T>
    decreases s.len(),
{
    if s.len() == 0 {
        Seq::empty()
    } else {
        let t = sorted_spec(s.drop_last());
        t.insert(insert_pos(t, s.last()) as int, s.last())
    }
}

proof fn lemma_insert_pos<T: Ranked>(s: Seq<T>, x: T, p: int)
    requires
        0 <= p <= s.len(),
        forall|q: int| 0 <= q < p ==> !x.precedes(&s[q]),
        p == s.len() || x.precedes(&s[p]),
    ensures
        insert_pos(s, x) == p,
    decreases p,
{
    if p > 0 {
        lemma_insert_pos(s.drop_first(), x, p - 1);
    }
}

proof fn lemma_insert_pos_bound<T: Ranked>(s: Seq<T>, x: T)
    ensures
        insert_pos(s, x) <= s.len(),
    decreases s.len(),
{
    if s.len() > 0 && !x.precedes(&s[0]) {
        lemma_insert_pos_bound(s.drop_first(), x);
    }
}

/// Sorting keeps every value: each value of `s` stands somewhere in
/// `sorted_spec(s)`.
pub proof fn lemma_sorted_keeps<T: Ranked>(s: Seq<T>, i: int)
    requires
        0 <= i < s.len(),
    ensures
        exists|k: int| 0 <= k < sorted_spec(s).len() && #[trigger] sorted_spec(s)[k] == s[i],
    decreases s.len(),
{
    let t = sorted_spec(s.drop_last());
    let p = insert_pos(t, s.last()) as int;
    lemma_insert_pos_bound(t, s.last());
    t.insert_ensures(p, s.last());
    if i == s.len() - 1 {
        assert(sorted_spec(s)[p] == s[i]);
    } else {
        assert(s.drop_last()[i] == s[i]);
        lemma_sorted_keeps(s.drop_last(), i);
        let k = choose|k: int| 0 <= k < t.len() && #[trigger] t[k] == s.drop_last()[i];
        if k < p {
            assert(sorted_spec(s)[k] == s[i]);
        } else {
            assert(sorted_spec(s)[k + 1] == s[i]);
        }
    }
}

/// Sorts `v` stably, as `slice::sort_by` with the comparator of `T` does.
pub fn stable_sort<T: Ranked>(v: Vec<T>) -> (r: Vec<T>)
    ensures
        r@ == sorted_spec(v@),
        stably_sorted(v@, r@),
{
    let ghost input = v@;
    let mut rest = v;
    let mut out: Vec<T> = Vec::new();
    let ghost mut perm: Seq<int> = Seq::empty();
    let n = rest.len();
    while rest.len() > 0
        invariant
            n == input.len(),
            rest@ == input.subrange(n - rest@.len(), n as int),
            out@.len() + rest@.len() == n,
            out@ == sorted_spec(input.subrange(0, out@.len() as int)),
            is_sorted(out@),
            perm.len() == out@.len(),
            forall|k: int| 0 <= k < perm.len() ==> 0 <= #[trigger] perm[k] < out@.len(),
            forall|k: int, l: int| 0 <= k < l < perm.len() ==> perm[k] != perm[l],
            forall|k: int| 0 <= k < perm.len() ==> out@[k] == input[#[trigger] perm[k]],
            forall|k: int, l: int|
                0 <= k < l < perm.len() && tied(out@[k], out@[l]) ==> perm[k] < perm[l],
        decreases rest@.len(),
    {
        let ghost i = out@.len() as int;
        let x = rest.remove(0);
        assert(x == input[i]);
        let mut p: usize = 0;
        while p < out.len() && !x.goes_before(&out[p])
            invariant
                p <= out@.len(),
                forall|q: int| 0 <= q < p ==> !x.precedes(&out@[q]),
            decreases out@.len() - p,
        {
            p += 1;
        }
        // every value from `p` on has to come after `x`
        proof {
            assert forall|l: int| p <= l < out@.len() implies x.precedes(&#[trigger] out@[l]) by {
                if l > p {
                    let a = out@[p as int];
                    let b = out@[l];
                    assert(!b.precedes(&a));
                    if !x.precedes(&b) {
                        if b.precedes(&x) {
                            T::precedes_transitive(&b, &x, &a);
                            assert(false);
                        } else {
                            if a.precedes(&b) {
                                assert(false) by {
                                    // x precedes a, a precedes b gives x precedes b
                                    T::precedes_transitive(&x, &a, &b);
                                }
                            } else {
                                T::tie_transitive(&x, &b, &a);
                            }
                        }
                    }
                }
            }
        }
        let ghost old_out = out@;
        let ghost old_perm = perm;
        proof {
            lemma_insert_pos(old_out, x, p as int);
            assert(input.subrange(0, i + 1).drop_last() =~= input.subrange(0, i));
        }
        out.insert(p, x);
        proof {
            perm = old_perm.insert(p as int, i);
            old_perm.insert_ensures(p as int, i);
            old_out.insert_ensures(p as int, x);
            assert forall|k: int, l: int| 0 <= k < l < out@.len() implies !out@[l].precedes(
                &out@[k],
            ) by {
                if l < p {
                    assert(out@[l] == old_out[l] && out@[k] == old_out[k]);
                } else if l == p {
                    assert(out@[k] == old_out[k]);
                } else if k == p {
                    assert(out@[l] == old_out[l - 1]);
                    assert(x.precedes(&old_out[l - 1]));
                    if out@[l].precedes(&x) {
                        T::precedes_transitive(&x, &out@[l], &x);
                        T::precedes_irreflexive(&x);
                    }
                } else if k < p {
                    assert(out@[l] == old_out[l - 1] && out@[k] == old_out[k]);
                } else {
                    assert(out@[l] == old_out[l - 1] && out@[k] == old_out[k - 1]);
                }
            }
            assert forall|k: int| 0 <= k < perm.len() implies 0 <= #[trigger] perm[k]
                < out@.len() by {
                if k < p {
                    assert(perm[k] == old_perm[k]);
                } else if k > p {
                    assert(perm[k] == old_perm[k - 1]);
                }
            }
            assert forall|k: int, l: int| 0 <= k < l < perm.len() implies perm[k] != perm[l] by {
                if k < p && l < p {
                    assert(perm[k] == old_perm[k] && perm[l] == old_perm[l]);
                } else if k < p && l > p {
                    assert(perm[k] == old_perm[k] && perm[l] == old_perm[l - 1]);
                } else if k > p && l > p {
                    assert(perm[k] == old_perm[k - 1] && perm[l] == old_perm[l - 1]);
                } else if k == p {
                    assert(perm[l] == old_perm[l - 1]);
                } else {
                    assert(perm[k] == old_perm[k]);
                }
            }
            assert forall|k: int| 0 <= k < perm.len() implies out@[k] == input[
                #[trigger] perm[k]
            ] by {
                if k < p {
                    assert(perm[k] == old_perm[k] && out@[k] == old_out[k]);
                } else if k > p {
                    assert(perm[k] == old_perm[k - 1] && out@[k] == old_out[k - 1]);
                }
            }
            assert forall|k: int, l: int|
                0 <= k < l < perm.len() && tied(out@[k], out@[l]) implies perm[k] < perm[l] by {
                if k < p && l < p {
                    assert(perm[k] == old_perm[k] && perm[l] == old_perm[l]);
                    assert(out@[k] == old_out[k] && out@[l] == old_out[l]);
                } else if k < p && l > p {
                    assert(perm[k] == old_perm[k] && perm[l] == old_perm[l - 1]);
                    assert(out@[k] == old_out[k] && out@[l] == old_out[l - 1]);
                    assert(!x.precedes(&old_out[k]));
                    assert(x.precedes(&old_out[l - 1]));
                    if !old_out[l - 1].precedes(&old_out[k]) && !old_out[k].precedes(
                        &old_out[l - 1],
                    ) {
                        if old_out[k].precedes(&x) {
                            T::precedes_transitive(&old_out[k], &x, &old_out[l - 1]);
                        } else {
                            T::tie_transitive(&x, &old_out[k], &old_out[l - 1]);
                        }
                    }
                } else if k > p && l > p {
                    assert(perm[k] == old_perm[k - 1] && perm[l] == old_perm[l - 1]);
                    assert(out@[k] == old_out[k - 1] && out@[l] == old_out[l - 1]);
                } else if k == p {
                    assert(out@[l] == old_out[l - 1]);
                    assert(x.precedes(&old_out[l - 1]));
                } else {
                    assert(perm[k] == old_perm[k]);
                }
            }
        }
        assert(rest@ =~= input.subrange(n - rest@.len(), n as int));
    }
    proof {
        assert(arrangement(input, out@, perm));
        assert(input.subrange(0, n as int) =~= input);
    }
    out
}

/// The lexicographic order of texts by character code, which is the order
/// of `String`'s comparison (UTF-8 keeps the order of code points).
pub open spec fn lex_lt(a: Seq<char>, b: Seq<char>) -> bool
    decreases a.len(),
{
    if a.len() == 0 {
        b.len() > 0
    } else if b.len() == 0 {
        false
    } else if a[0] != b[0] {
        (a[0] as int) < (b[0] as int)
    } else {
        lex_lt(a.drop_first(), b.drop_first())
    }
}

pub proof fn lemma_lex_irreflexive(a: Seq<char>)
    ensures
        !lex_lt(a, a),
    decreases a.len(),
{
    if a.len() > 0 {
        lemma_lex_irreflexive(a.drop_first());
    }
}

pub proof fn lemma_lex_transitive(a: Seq<char>, b: Seq<char>, c: Seq<char>)
    requires
        lex_lt(a, b),
        lex_lt(b, c),
    ensures
        lex_lt(a, c),
    decreases a.len(),
{
    if a.len() > 0 && b.len() > 0 && c.len() > 0 {
        if a[0] == b[0] && b[0] == c[0] {
            lemma_lex_transitive(a.drop_first(), b.drop_first(), c.drop_first());
        }
    }
}

pub proof fn lemma_lex_total(a: Seq<char>, b: Seq<char>)
    requires
        !lex_lt(a, b),
        !lex_lt(b, a),
    ensures
        a == b,
    decreases a.len(),
{
    if a.len() > 0 && b.len() > 0 {
        if a[0] == b[0] {
            lemma_lex_total(a.drop_first(), b.drop_first());
            assert(a =~= seq![a[0]] + a.drop_first());
            assert(b =~= seq![b[0]] + b.drop_first());
        } else {
            assert((a[0] as int) != (b[0] as int));
        }
    } else {
        assert(a =~= b);
    }
}

/// Whether `a` comes before `b` in the lexicographic order.
pub fn lex_less(a: &[char], b: &[char]) -> (r: bool)
    ensures
        r == lex_lt(a@, b@),
{
    let mut i: usize = 0;
    assert(a@.subrange(0, a@.len() as int) =~= a@);
    assert(b@.subrange(0, b@.len() as int) =~= b@);
    while i < a.len() && i < b.len() && a[i] == b[i]
        invariant
            i <= a@.len(),
            i <= b@.len(),
            lex_lt(a@, b@) == lex_lt(a@.subrange(i as int, a@.len() as int), b@.subrange(
                i as int,
                b@.len() as int,
            )),
        decreases a@.len() - i,
    {
        let ghost sa = a@.subrange(i as int, a@.len() as int);
        let ghost sb = b@.subrange(i as int, b@.len() as int);
        assert(sa.drop_first() =~= a@.subrange(i + 1, a@.len() as int));
        assert(sb.drop_first() =~= b@.subrange(i + 1, b@.len() as int));
        i += 1;
    }
    let ghost sa = a@.subrange(i as int, a@.len() as int);
    let ghost sb = b@.subrange(i as int, b@.len() as int);
    if i == a.len() {
        i < b.len()
    } else if i == b.len() {
        false
    } else {
        assert(sa[0] == a@[i as int] && sb[0] == b@[i as int]);
        a[i] < b[i]
    }
}

} // verus!
