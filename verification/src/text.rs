//! Character-level text operations: equality, prefix and substring tests,
//! and non-overlapping left-to-right replacement, each with an exact
//! specification over `Seq<char>`.

use vstd::prelude::*;

verus! {

broadcast use vstd::string::group_string_axioms;

/// `pat` stands at the front of `s`.
pub open spec fn has_prefix(s: Seq<char>, pat: Seq<char>) -> bool {
    pat.len() <= s.len() && s.subrange(0, pat.len() as int) == pat
}

/// `pat` stands somewhere in `s`.
pub open spec fn str_contains(s: Seq<char>, pat: Seq<char>) -> bool {
    exists|i: int|
        0 <= i && i + pat.len() <= s.len() && #[trigger] s.subrange(i, i + pat.len()) == pat
}

/// Every occurrence of `pat` in `s`, found left to right without overlap,
/// replaced by `rep`.
pub open spec fn str_replace(s: Seq<char>, pat: Seq<char>, rep: Seq<char>) -> Seq<char>
    recommends
        pat.len() > 0,
    decreases s.len(),
{
    if pat.len() == 0 || s.len() < pat.len() {
        s
    } else if s.subrange(0, pat.len() as int) == pat {
        rep + str_replace(s.skip(pat.len() as int), pat, rep)
    } else {
        seq![s[0]] + str_replace(s.drop_first(), pat, rep)
    }
}

/// The pieces `f` gives for each element of `s`, concatenated in order.
pub open spec fn concat_map<A, B>(s: Seq<A>, f: spec_fn(A) -> Seq<B>) -> Seq<B>
    decreases s.len(),
{
    if s.len() == 0 {
        Seq::empty()
    } else {
        f(s[0]) + concat_map(s.drop_first(), f)
    }
}

pub proof fn lemma_concat_map_push<A, B>(s: Seq<A>, f: spec_fn(A) -> Seq<B>, x: A)
    ensures
        concat_map(s.push(x), f) == concat_map(s, f) + f(x),
    decreases s.len(),
{
    if s.len() == 0 {
        assert(s.push(x)[0] == x);
        assert(s.push(x).drop_first() =~= Seq::<A>::empty());
        assert(concat_map(s.push(x), f) == f(x) + concat_map(Seq::<A>::empty(), f));
        assert(f(x) + Seq::<B>::empty() =~= f(x));
        assert(s =~= Seq::<A>::empty());
        assert(Seq::<B>::empty() + f(x) =~= f(x));
    } else {
        assert(s.push(x)[0] == s[0]);
        assert(s.push(x).drop_first() =~= s.drop_first().push(x));
        lemma_concat_map_push(s.drop_first(), f, x);
        assert(concat_map(s.push(x), f) == f(s[0]) + concat_map(s.drop_first().push(x), f));
        assert(concat_map(s, f) == f(s[0]) + concat_map(s.drop_first(), f));
        assert((f(s[0]) + concat_map(s.drop_first(), f)) + f(x) =~= f(s[0]) + (concat_map(
            s.drop_first(),
            f,
        ) + f(x)));
    }
}

pub proof fn lemma_concat_map_singleton<A, B>(x: A, f: spec_fn(A) -> Seq<B>)
    ensures
        concat_map(seq![x], f) == f(x),
{
    assert(seq![x][0] == x);
    assert(seq![x].drop_first() =~= Seq::<A>::empty());
    assert(concat_map(seq![x], f) == f(x) + concat_map(Seq::<A>::empty(), f));
    assert(f(x) + Seq::<B>::empty() =~= f(x));
}

pub proof fn lemma_concat_map_concat<A, B>(a: Seq<A>, b: Seq<A>, f: spec_fn(A) -> Seq<B>)
    ensures
        concat_map(a + b, f) == concat_map(a, f) + concat_map(b, f),
    decreases a.len(),
{
    if a.len() == 0 {
        assert(a + b =~= b);
        assert(concat_map(a, f) == Seq::<B>::empty());
        assert(Seq::<B>::empty() + concat_map(b, f) =~= concat_map(b, f));
    } else {
        assert((a + b)[0] == a[0]);
        assert((a + b).len() > 0);
        assert((a + b).drop_first() =~= a.drop_first() + b);
        lemma_concat_map_concat(a.drop_first(), b, f);
        assert(concat_map(a + b, f) == f(a[0]) + (concat_map(a.drop_first(), f) + concat_map(
            b,
            f,
        )));
        assert(f(a[0]) + (concat_map(a.drop_first(), f) + concat_map(b, f)) =~= (f(a[0])
            + concat_map(a.drop_first(), f)) + concat_map(b, f));
    }
}

/// The characters of `s`, one vector entry per character.
pub fn chars_of(s: &str) -> (r: Vec<char>)
    ensures
        r@ == s@,
{
    let mut v: Vec<char> = Vec::new();
    for c in it: s.chars()
        invariant
            it.seq() == s@,
            v@ == it.seq().take(it.index() as int),
    {
        v.push(c);
    }
    assert(v@ =~= s@);
    v
}

/// Relies on `String::push`: appends the one character `c` to the string.
#[verifier::external_body]
pub(crate) fn push_char(s: &mut String, c: char)
    ensures
        final(s)@ == old(s)@.push(c),
{
    s.push(c);
}

/// A freshly built string holding exactly the characters of `v`.
pub fn string_of(v: &Vec<char>) -> (r: String)
    ensures
        r@ == v@,
{
    let mut s = String::new();
    let mut i: usize = 0;
    while i < v.len()
        invariant
            i <= v.len(),
            s@ == v@.take(i as int),
        decreases v.len() - i,
    {
        push_char(&mut s, v[i]);
        assert(v@.take(i as int).push(v@[i as int]) =~= v@.take(i + 1));
        i = i + 1;
    }
    assert(v@.take(v.len() as int) =~= v@);
    s
}

/// The two string slices hold the same characters.
pub fn str_eq(a: &str, b: &str) -> (r: bool)
    ensures
        r == (a@ == b@),
{
    let va = chars_of(a);
    let vb = chars_of(b);
    chars_eq(&va, &vb)
}

/// The two character vectors hold the same characters.
pub fn chars_eq(a: &Vec<char>, b: &Vec<char>) -> (r: bool)
    ensures
        r == (a@ == b@),
{
    if a.len() != b.len() {
        return false;
    }
    let mut i: usize = 0;
    while i < a.len()
        invariant
            a@.len() == b@.len(),
            i <= a@.len(),
            forall|j: int| 0 <= j < i ==> a@[j] == b@[j],
        decreases a.len() - i,
    {
        if a[i] != b[i] {
            return false;
        }
        i = i + 1;
    }
    assert(a@ =~= b@);
    true
}

/// Whether `p` stands at the front of `s`.
pub fn starts_with_exec(s: &str, p: &str) -> (r: bool)
    ensures
        r == has_prefix(s@, p@),
{
    let vs = chars_of(s);
    let vp = chars_of(p);
    if vp.len() > vs.len() {
        return false;
    }
    match_at(&vs, &vp, 0)
}

/// `pat` matches `s` at position `i`, character for character.
pub(crate) fn match_at(s: &Vec<char>, pat: &Vec<char>, i: usize) -> (r: bool)
    requires
        i + pat@.len() <= s@.len(),
    ensures
        r == (s@.subrange(i as int, i + pat@.len()) == pat@),
{
    let n = s.len();
    let mut j: usize = 0;
    while j < pat.len()
        invariant
            n == s@.len(),
            i + pat@.len() <= s@.len(),
            j <= pat@.len(),
            forall|k: int| 0 <= k < j ==> s@[i + k] == pat@[k],
        decreases pat.len() - j,
    {
        if s[i + j] != pat[j] {
            assert(s@.subrange(i as int, i + pat@.len())[j as int] != pat@[j as int]);
            return false;
        }
        j = j + 1;
    }
    assert(s@.subrange(i as int, i + pat@.len()) =~= pat@);
    true
}

/// Whether `pat` stands somewhere in `s`.
pub fn contains_chars(s: &Vec<char>, pat: &Vec<char>) -> (r: bool)
    ensures
        r == str_contains(s@, pat@),
{
    if pat.len() > s.len() {
        return false;
    }
    if pat.len() == 0 {
        assert(str_contains(s@, pat@)) by {
            assert(s@.subrange(0, 0 + pat@.len() as int) =~= pat@);
        }
        return true;
    }
    let mut i: usize = 0;
    let last = s.len() - pat.len();
    while i <= last
        invariant
            0 < pat@.len() <= s@.len(),
            last == s@.len() - pat@.len(),
            last < usize::MAX,
            i <= last + 1,
            forall|k: int| 0 <= k < i ==> #[trigger] s@.subrange(k, k + pat@.len()) != pat@,
        decreases last + 1 - i,
    {
        if match_at(s, pat, i) {
            return true;
        }
        i = i + 1;
    }
    false
}

/// Whether `pat` stands somewhere in the string slice `s`.
pub fn str_contains_exec(s: &str, pat: &str) -> (r: bool)
    ensures
        r == str_contains(s@, pat@),
{
    let vs = chars_of(s);
    let vp = chars_of(pat);
    contains_chars(&vs, &vp)
}

/// Every occurrence of `pat` in `s` replaced by `rep`, left to right,
/// without overlap.
pub fn replace_chars(s: &Vec<char>, pat: &Vec<char>, rep: &Vec<char>) -> (r: Vec<char>)
    requires
        pat@.len() > 0,
    ensures
        r@ == str_replace(s@, pat@, rep@),
{
    let mut out: Vec<char> = Vec::new();
    let mut i: usize = 0;
    proof {
        assert(s@.skip(0) =~= s@);
        assert(Seq::<char>::empty() + str_replace(s@, pat@, rep@) =~= str_replace(
            s@,
            pat@,
            rep@,
        ));
    }
    while i < s.len()
        invariant
            pat@.len() > 0,
            i <= s@.len(),
            str_replace(s@, pat@, rep@) == out@ + str_replace(s@.skip(i as int), pat@, rep@),
        decreases s.len() - i,
    {
        let ghost pre = out@;
        let ghost tail = s@.skip(i as int);
        if pat.len() <= s.len() - i && match_at(s, pat, i) {
            assert(tail.subrange(0, pat@.len() as int) =~= s@.subrange(
                i as int,
                i + pat@.len(),
            ));
            let mut j: usize = 0;
            while j < rep.len()
                invariant
                    j <= rep@.len(),
                    out@ == pre + rep@.take(j as int),
                decreases rep.len() - j,
            {
                out.push(rep[j]);
                assert(pre + rep@.take(j as int).push(rep@[j as int]) =~= pre + rep@.take(
                    j + 1,
                ));
                j = j + 1;
            }
            assert(out@ == pre + rep@) by {
                assert(rep@.take(rep@.len() as int) =~= rep@);
            }
            i = i + pat.len();
            assert(tail.skip(pat@.len() as int) =~= s@.skip(i as int));
            assert((pre + rep@) + str_replace(s@.skip(i as int), pat@, rep@) =~= pre + (rep@
                + str_replace(s@.skip(i as int), pat@, rep@)));
        } else {
            out.push(s[i]);
            assert(tail.len() >= 1 && tail[0] == s@[i as int]);
            proof {
                if i + pat@.len() <= s@.len() {
                    assert(tail.subrange(0, pat@.len() as int) =~= s@.subrange(
                        i as int,
                        i + pat@.len(),
                    ));
                    assert(tail.subrange(0, pat@.len() as int) != pat@);
                } else {
                    assert(tail.len() < pat@.len());
                }
            }
            assert(tail.drop_first() =~= s@.skip(i + 1));
            assert(str_replace(tail, pat@, rep@) == seq![s@[i as int]] + str_replace(
                s@.skip(i + 1),
                pat@,
                rep@,
            ));
            i = i + 1;
            assert(pre.push(tail[0]) =~= pre + seq![tail[0]]);
            assert((pre + seq![tail[0]]) + str_replace(s@.skip(i as int), pat@, rep@) =~= pre + (
            seq![tail[0]] + str_replace(s@.skip(i as int), pat@, rep@)));
        }
    }
    assert(s@.skip(s@.len() as int) =~= Seq::<char>::empty());
    assert(str_replace(Seq::<char>::empty(), pat@, rep@) =~= Seq::<char>::empty());
    assert(out@ + Seq::<char>::empty() =~= out@);
    out
}

/// Every occurrence of `pat` in `s` replaced by `rep`, as a new string.
/// An empty `pat` occurs nowhere, so it leaves `s` unchanged.
pub fn replace_str(s: &str, pat: &str, rep: &str) -> (r: String)
    ensures
        r@ == str_replace(s@, pat@, rep@),
{
    let vs = chars_of(s);
    let vp = chars_of(pat);
    if vp.len() == 0 {
        return s.to_owned();
    }
    let vr = chars_of(rep);
    let out = replace_chars(&vs, &vp, &vr);
    string_of(&out)
}

} // verus!
