//! What does not matter about a licence URL, and what an identifier never is.

use super::{canonical, cc_identifier, identifier};
use crate::text::{
    ascii_lower, ascii_upper, contains, find, is_white_space, lemma_find, nth_part, occurs_at,
    to_ascii_lowercase, to_ascii_uppercase, trim, trim_end, trim_end_char, trim_start,
};
use vstd::prelude::*;

verus! {

/// `s` is made of `c` alone.
pub open spec fn all_char(s: Seq<char>, c: char) -> bool {
    forall|i: int| 0 <= i < s.len() ==> #[trigger] s[i] == c
}

/// `s` is made of whitespace alone.
pub open spec fn all_white_space(s: Seq<char>) -> bool {
    forall|i: int| 0 <= i < s.len() ==> is_white_space(#[trigger] s[i])
}

/// `s` neither starts nor ends with whitespace.
spec fn is_trim(s: Seq<char>) -> bool {
    s.len() > 0 ==> !is_white_space(s[0]) && !is_white_space(s.last())
}

/// `s` does not end with `c`.
spec fn ends_without(s: Seq<char>, c: char) -> bool {
    s.len() > 0 ==> s.last() != c
}

proof fn lemma_trim_start_is(a: Seq<char>, b: Seq<char>)
    requires
        all_white_space(a),
        b.len() > 0 ==> !is_white_space(b[0]),
    ensures
        trim_start(a + b) == b,
    decreases a.len(),
{
    if a.len() > 0 {
        assert((a + b)[0] == a[0]);
        assert((a + b).drop_first() =~= a.drop_first() + b);
        lemma_trim_start_is(a.drop_first(), b);
    } else {
        assert(a + b =~= b);
    }
}

proof fn lemma_trim_end_is(a: Seq<char>, b: Seq<char>)
    requires
        all_white_space(b),
        a.len() > 0 ==> !is_white_space(a.last()),
    ensures
        trim_end(a + b) == a,
    decreases b.len(),
{
    if b.len() > 0 {
        assert((a + b).last() == b[b.len() - 1]);
        assert((a + b).drop_last() =~= a + b.drop_last());
        lemma_trim_end_is(a, b.drop_last());
    } else {
        assert(a + b =~= a);
    }
}

proof fn lemma_trim_end_char_is(a: Seq<char>, b: Seq<char>, c: char)
    requires
        all_char(b, c),
        ends_without(a, c),
    ensures
        trim_end_char(a + b, c) == a,
    decreases b.len(),
{
    if b.len() > 0 {
        assert((a + b).last() == b[b.len() - 1]);
        assert((a + b).drop_last() =~= a + b.drop_last());
        lemma_trim_end_char_is(a, b.drop_last(), c);
    } else {
        assert(a + b =~= a);
    }
}

proof fn lemma_trim_is(a: Seq<char>, t: Seq<char>, b: Seq<char>)
    requires
        all_white_space(a),
        all_white_space(b),
        is_trim(t),
    ensures
        trim(a + t + b) == t,
{
    if t.len() > 0 {
        assert(a + t + b =~= a + (t + b));
        assert((t + b)[0] == t[0]);
        lemma_trim_start_is(a, t + b);
        lemma_trim_end_is(t, b);
    } else {
        assert(a + t + b =~= (a + b) + t);
        lemma_trim_start_is(a + b, t);
        assert(trim_end(t) == t);
    }
}

/// The whitespace that [`trim_start`] takes off.
proof fn lemma_trim_start_parts(s: Seq<char>) -> (a: Seq<char>)
    ensures
        all_white_space(a),
        s == a + trim_start(s),
        trim_start(s).len() > 0 ==> !is_white_space(trim_start(s)[0]),
    decreases s.len(),
{
    if s.len() > 0 && is_white_space(s[0]) {
        let a = lemma_trim_start_parts(s.drop_first());
        let r = seq![s[0]] + a;
        assert(s =~= seq![s[0]] + s.drop_first());
        assert(seq![s[0]] + (a + trim_start(s)) =~= r + trim_start(s));
        r
    } else {
        assert(s =~= Seq::<char>::empty() + s);
        Seq::empty()
    }
}

/// The whitespace that [`trim_end`] takes off.
proof fn lemma_trim_end_parts(s: Seq<char>) -> (b: Seq<char>)
    ensures
        all_white_space(b),
        s == trim_end(s) + b,
        trim_end(s).len() > 0 ==> !is_white_space(trim_end(s).last()),
    decreases s.len(),
{
    if s.len() > 0 && is_white_space(s.last()) {
        let b = lemma_trim_end_parts(s.drop_last());
        let r = b.push(s.last());
        assert(s =~= s.drop_last().push(s.last()));
        assert((trim_end(s) + b).push(s.last()) =~= trim_end(s) + r);
        r
    } else {
        assert(s =~= s + Seq::<char>::empty());
        Seq::empty()
    }
}

/// The characters that [`trim_end_char`] takes off.
proof fn lemma_trim_end_char_parts(s: Seq<char>, c: char) -> (b: Seq<char>)
    ensures
        all_char(b, c),
        s == trim_end_char(s, c) + b,
        ends_without(trim_end_char(s, c), c),
    decreases s.len(),
{
    if s.len() > 0 && s.last() == c {
        let b = lemma_trim_end_char_parts(s.drop_last(), c);
        let r = b.push(c);
        assert(s =~= s.drop_last().push(c));
        assert((trim_end_char(s, c) + b).push(c) =~= trim_end_char(s, c) + r);
        r
    } else {
        assert(s =~= s + Seq::<char>::empty());
        Seq::empty()
    }
}

/// The whitespace that [`trim`] takes off.
proof fn lemma_trim_parts(s: Seq<char>) -> (r: (Seq<char>, Seq<char>))
    ensures
        all_white_space(r.0),
        all_white_space(r.1),
        s == r.0 + trim(s) + r.1,
        is_trim(trim(s)),
{
    let m = trim_start(s);
    let a = lemma_trim_start_parts(s);
    let b = lemma_trim_end_parts(m);
    assert(s =~= a + trim(s) + b);
    if trim(s).len() > 0 {
        assert(m[0] == trim(s)[0]);
    }
    (a, b)
}

/// Whitespace around the URL does not matter.
pub proof fn law_surrounding_white_space(before: Seq<char>, url: Seq<char>, after: Seq<char>)
    requires
        all_white_space(before),
        all_white_space(after),
    ensures
        identifier(canonical(before + url + after)) == identifier(canonical(url)),
{
    let (a, b) = lemma_trim_parts(url);
    let t = trim(url);
    assert(before + url + after =~= (before + a) + t + (b + after));
    lemma_trim_is(before + a, t, b + after);
}

/// Slashes after the URL do not matter.
pub proof fn law_trailing_slashes(url: Seq<char>, slashes: Seq<char>)
    requires
        all_char(slashes, '/'),
    ensures
        identifier(canonical(trim(url) + slashes)) == identifier(canonical(url)),
{
    let (a, b) = lemma_trim_parts(url);
    let t = trim(url);
    let e = Seq::<char>::empty();
    assert(is_trim(t + slashes)) by {
        if slashes.len() > 0 {
            assert((t + slashes).last() == slashes[slashes.len() - 1]);
            assert((t + slashes)[0] == if t.len() > 0 {
                t[0]
            } else {
                slashes[0]
            });
        } else {
            assert(t + slashes =~= t);
        }
    }
    lemma_trim_is(e, t + slashes, e);
    assert(e + (t + slashes) + e =~= t + slashes);
    let c = lemma_trim_end_char_parts(t, '/');
    let u = trim_end_char(t, '/');
    assert(t + slashes =~= u + (c + slashes));
    lemma_trim_end_char_is(u, c + slashes, '/');
}

/// ASCII case neither makes nor breaks whitespace and slashes.
proof fn lemma_lower_keeps(c: char)
    ensures
        is_white_space(ascii_lower(c)) == is_white_space(c),
        (ascii_lower(c) == '/') == (c == '/'),
{
}

/// The canonical form can as well be taken of the URL in small letters.
proof fn lemma_canonical_of_lowercase(url: Seq<char>)
    ensures
        canonical(url) == trim_end_char(trim(to_ascii_lowercase(url)), '/'),
{
    let (a, b) = lemma_trim_parts(url);
    let t = trim(url);
    let (la, lt, lb) = (to_ascii_lowercase(a), to_ascii_lowercase(t), to_ascii_lowercase(b));
    assert(to_ascii_lowercase(url) =~= la + lt + lb);
    assert(all_white_space(la)) by {
        assert forall|i: int| 0 <= i < la.len() implies is_white_space(#[trigger] la[i]) by {
            lemma_lower_keeps(a[i]);
        }
    }
    assert(all_white_space(lb)) by {
        assert forall|i: int| 0 <= i < lb.len() implies is_white_space(#[trigger] lb[i]) by {
            lemma_lower_keeps(b[i]);
        }
    }
    if t.len() > 0 {
        lemma_lower_keeps(t[0]);
        lemma_lower_keeps(t.last());
    }
    lemma_trim_is(la, lt, lb);
    let c = lemma_trim_end_char_parts(t, '/');
    let u = trim_end_char(t, '/');
    let (lu, lc) = (to_ascii_lowercase(u), to_ascii_lowercase(c));
    assert(lt =~= lu + lc);
    assert(all_char(lc, '/')) by {
        assert forall|i: int| 0 <= i < lc.len() implies #[trigger] lc[i] == '/' by {
            lemma_lower_keeps(c[i]);
        }
    }
    if u.len() > 0 {
        lemma_lower_keeps(u.last());
    }
    lemma_trim_end_char_is(lu, lc, '/');
}

/// The case of ASCII letters in the URL does not matter.
pub proof fn law_ascii_case(url: Seq<char>, other: Seq<char>)
    requires
        to_ascii_lowercase(url) == to_ascii_lowercase(other),
    ensures
        identifier(canonical(url)) == identifier(canonical(other)),
{
    lemma_canonical_of_lowercase(url);
    lemma_canonical_of_lowercase(other);
}

/// `pat` has a slash and no colon.
spec fn slash_no_colon(pat: Seq<char>) -> bool {
    pat.contains('/') && !pat.contains(':')
}

/// No occurrence of `pat` starts before a colon that only slash-free text
/// precedes.
proof fn lemma_no_early_occurrence(w: Seq<char>, q: Seq<char>, pat: Seq<char>, i: int)
    requires
        !w.contains('/'),
        slash_no_colon(pat),
        i <= w.len(),
    ensures
        !occurs_at(w + seq![':'] + q, pat, i),
{
    let s = w + seq![':'] + q;
    if occurs_at(s, pat, i) {
        let sub = s.subrange(i, i + pat.len());
        if i + pat.len() > w.len() {
            assert(sub[w.len() - i] == ':');
            assert(pat.contains(':'));
        } else {
            let k = choose|k: int| 0 <= k < pat.len() && pat[k] == '/';
            assert(sub[k] == w[i + k]);
            assert(w.contains('/'));
        }
    }
}

/// Searching past a prefix is searching what follows it.
proof fn lemma_find_past(x: Seq<char>, q: Seq<char>, pat: Seq<char>, from: int)
    requires
        0 <= from,
    ensures
        find(x + q, pat, x.len() + from) == (match find(q, pat, from) {
            Some(i) => Some(x.len() + i),
            None => None,
        }),
    decreases q.len() + 1 - from,
{
    if from + pat.len() <= q.len() {
        assert((x + q).subrange(x.len() + from, x.len() + from + pat.len()) =~= q.subrange(
            from,
            from + pat.len(),
        ));
        if !occurs_at(q, pat, from) {
            lemma_find_past(x, q, pat, from + 1);
        }
    }
}

/// Where no occurrence starts before `to`, the search may start there.
proof fn lemma_find_skip(s: Seq<char>, pat: Seq<char>, from: int, to: int)
    requires
        0 <= from <= to,
        forall|i: int| from <= i < to ==> !occurs_at(s, pat, i),
    ensures
        find(s, pat, from) == find(s, pat, to),
    decreases to - from,
{
    if from < to {
        if from + pat.len() <= s.len() {
            lemma_find_skip(s, pat, from + 1, to);
        }
    }
}

/// Text up to a colon without a slash before it hides nothing from a search.
proof fn lemma_find_after_scheme(w: Seq<char>, q: Seq<char>, pat: Seq<char>)
    requires
        !w.contains('/'),
        slash_no_colon(pat),
    ensures
        find(w + seq![':'] + q, pat, 0) == (match find(q, pat, 0) {
            Some(i) => Some(w.len() + 1 + i),
            None => None,
        }),
        contains(w + seq![':'] + q, pat) == contains(q, pat),
{
    let x = w + seq![':'];
    assert forall|i: int| 0 <= i < x.len() implies !occurs_at(x + q, pat, i) by {
        lemma_no_early_occurrence(w, q, pat, i);
    }
    lemma_find_skip(x + q, pat, 0, x.len() as int);
    lemma_find_past(x, q, pat, 0);
    crate::text::lemma_find_contains(x + q, pat);
    crate::text::lemma_find_contains(q, pat);
}

/// Text up to a colon without a slash before it does not change the identifier.
proof fn lemma_identifier_after_scheme(w: Seq<char>, q: Seq<char>)
    requires
        !w.contains('/'),
    ensures
        identifier(w + seq![':'] + q) == identifier(q),
{
    reveal_strlit("publicdomain/zero");
    reveal_strlit("publicdomain/mark");
    reveal_strlit("/licenses/");
    let zero = "publicdomain/zero"@;
    let mark = "publicdomain/mark"@;
    let licenses = "/licenses/"@;
    assert(zero[12] == '/' && mark[12] == '/' && licenses[0] == '/');
    lemma_find_after_scheme(w, q, zero);
    lemma_find_after_scheme(w, q, mark);
    lemma_find_after_scheme(w, q, licenses);
    let s = w + seq![':'] + q;
    if let Some(i) = find(q, licenses, 0) {
        lemma_find(q, licenses, 0);
        let j = w.len() + 1 + i;
        assert(s.subrange(j + licenses.len(), s.len() as int) =~= q.subrange(
            i + licenses.len(),
            q.len() as int,
        ));
        reveal_with_fuel(nth_part, 2);
    }
}

/// The canonical form of a URL with a scheme, taken apart at the colon.
proof fn lemma_canonical_of_scheme(scheme: Seq<char>, rest: Seq<char>)
    requires
        !scheme.contains('/'),
    ensures
        identifier(canonical(scheme + seq![':'] + rest)) == identifier(
            to_ascii_lowercase(trim_end_char(trim_end(rest), '/')),
        ),
{
    let url = scheme + seq![':'] + rest;
    let p = trim_start(scheme);
    let a = lemma_trim_start_parts(scheme);
    let e = trim_end(rest);
    let b = lemma_trim_end_parts(rest);
    let t = p + seq![':'] + e;
    assert(url =~= a + t + b);
    assert(t.len() > 0 && t[0] == if p.len() > 0 {
        p[0]
    } else {
        ':'
    });
    assert(t.last() == if e.len() > 0 {
        e.last()
    } else {
        ':'
    });
    lemma_trim_is(a, t, b);
    let f = trim_end_char(e, '/');
    let c = lemma_trim_end_char_parts(e, '/');
    let u = p + seq![':'] + f;
    assert(t =~= u + c);
    assert(u.last() == if f.len() > 0 {
        f.last()
    } else {
        ':'
    });
    lemma_trim_end_char_is(u, c, '/');
    let lp = to_ascii_lowercase(p);
    assert(to_ascii_lowercase(u) =~= lp + seq![':'] + to_ascii_lowercase(f));
    assert(!lp.contains('/')) by {
        if lp.contains('/') {
            let i = choose|i: int| 0 <= i < lp.len() && lp[i] == '/';
            lemma_lower_keeps(p[i]);
            assert(scheme[a.len() + i] == '/');
        }
    }
    lemma_identifier_after_scheme(lp, to_ascii_lowercase(f));
}

/// The scheme does not matter: what comes before the first colon names no
/// licence as long as there is no slash in it.
pub proof fn law_scheme(scheme: Seq<char>, other: Seq<char>, rest: Seq<char>)
    requires
        !scheme.contains('/'),
        !other.contains('/'),
    ensures
        identifier(canonical(scheme + seq![':'] + rest)) == identifier(
            canonical(other + seq![':'] + rest),
        ),
{
    lemma_canonical_of_scheme(scheme, rest);
    lemma_canonical_of_scheme(other, rest);
}

/// A part of a text split at slashes has none.
proof fn lemma_part_has_no_slash(s: Seq<char>, n: nat)
    ensures
        nth_part(s, "/"@, n) matches Some(part) ==> !part.contains('/'),
    decreases n,
{
    reveal_strlit("/");
    let slash = "/"@;
    lemma_find(s, slash, 0);
    match find(s, slash, 0) {
        Some(i) => if n == 0 {
            let part = s.subrange(0, i);
            if part.contains('/') {
                let j = choose|j: int| 0 <= j < part.len() && part[j] == '/';
                assert(s.subrange(j, j + 1) =~= slash);
                assert(occurs_at(s, slash, j));
            }
        } else {
            lemma_part_has_no_slash(s.subrange(i + slash.len(), s.len() as int), (n - 1) as nat);
        },
        None => if n == 0 {
            if s.contains('/') {
                let j = choose|j: int| 0 <= j < s.len() && s[j] == '/';
                assert(s.subrange(j, j + 1) =~= slash);
                assert(occurs_at(s, slash, j));
            }
        },
    }
}

/// An identifier is no URL and no path: it is not empty and has no slash.
pub proof fn law_an_identifier_is_no_url(url: Seq<char>)
    ensures
        identifier(canonical(url)) matches Some(id) ==> id.len() > 0 && !id.contains('/'),
{
    reveal_strlit("CC0-1.0");
    reveal_strlit("PublicDomain");
    reveal_strlit("CC-");
    reveal_strlit("-");
    reveal_strlit("4.0");
    let u = canonical(url);
    if let Some(rest) = nth_part(u, "/licenses/"@, 1) {
        lemma_part_has_no_slash(rest, 0);
        lemma_part_has_no_slash(rest, 1);
        let variant = nth_part(rest, "/"@, 0)->0;
        let upper = to_ascii_uppercase(variant);
        assert(!upper.contains('/')) by {
            if upper.contains('/') {
                let i = choose|i: int| 0 <= i < upper.len() && upper[i] == '/';
                assert(variant[i] == '/');
            }
        }
        let version = match nth_part(rest, "/"@, 1) {
            Some(version) => version,
            None => "4.0"@,
        };
        let id = cc_identifier(upper, version);
        if id.contains('/') {
            let i = choose|i: int| 0 <= i < id.len() && id[i] == '/';
            let n = upper.len();
            assert(id[i] == if i < 3 {
                "CC-"@[i]
            } else if i < 3 + n {
                upper[i - 3]
            } else if i < 4 + n {
                "-"@[i - 3 - n]
            } else {
                version[i - 4 - n]
            });
            assert(3 <= i < 3 + n ==> upper.contains('/'));
            assert(4 + n <= i ==> version.contains('/'));
        }
    }
}

// ---- what a URL names ----

/// Case is changed letter by letter: a small ASCII letter and its capital are 32
/// apart, and every other character stays.
pub proof fn law_ascii_letters(c: char)
    ensures
        'a' <= c <= 'z' ==> ascii_upper(c) as int == c as int - 32,
        !('a' <= c <= 'z') ==> ascii_upper(c) == c,
        'A' <= c <= 'Z' ==> ascii_lower(c) as int == c as int + 32,
        !('A' <= c <= 'Z') ==> ascii_lower(c) == c,
{
}

/// Case is changed character by character.
pub proof fn law_case_is_changed_by_character(s: Seq<char>, i: int)
    requires
        0 <= i < s.len(),
    ensures
        to_ascii_lowercase(s).len() == s.len(),
        to_ascii_uppercase(s).len() == s.len(),
        to_ascii_lowercase(s)[i] == ascii_lower(s[i]),
        to_ascii_uppercase(s)[i] == ascii_upper(s[i]),
{
}

/// A text contains another exactly if that is a middle part of it.
pub proof fn law_what_is_contained_is_a_middle_part(s: Seq<char>, pat: Seq<char>)
    ensures
        contains(s, pat) <==> exists|a: Seq<char>, b: Seq<char>| s == #[trigger] (a + pat + b),
{
    if contains(s, pat) {
        let i = choose|i: int| occurs_at(s, pat, i);
        assert(occurs_at(s, pat, i));
        let (a, b) = (s.subrange(0, i), s.subrange(i + pat.len(), s.len() as int));
        assert(s =~= a + pat + b) by {
            assert(forall|k: int|
                i <= k < i + pat.len() ==> s[k] == s.subrange(i, i + pat.len())[k - i]);
        }
    }
    if exists|a: Seq<char>, b: Seq<char>| s == #[trigger] (a + pat + b) {
        let (a, b) = choose|a: Seq<char>, b: Seq<char>| s == #[trigger] (a + pat + b);
        assert(s.subrange(a.len() as int, (a.len() + pat.len()) as int) =~= pat);
        assert(occurs_at(s, pat, a.len() as int));
    }
}

/// `s` is made of slashes and whitespace alone.
spec fn all_slash_or_space(s: Seq<char>) -> bool {
    forall|i: int| 0 <= i < s.len() ==> s[i] == '/' || is_white_space(#[trigger] s[i])
}

/// What is taken off a URL in small letters to make it canonical.
proof fn lemma_canonical_parts(url: Seq<char>) -> (r: (Seq<char>, Seq<char>))
    ensures
        to_ascii_lowercase(url) == r.0 + canonical(url) + r.1,
        all_white_space(r.0),
        all_slash_or_space(r.1),
{
    let (a, b) = lemma_trim_parts(url);
    let t = trim(url);
    let c = lemma_trim_end_char_parts(t, '/');
    let (la, lb) = (to_ascii_lowercase(a), to_ascii_lowercase(c + b));
    assert(to_ascii_lowercase(url) =~= la + canonical(url) + lb);
    assert forall|i: int| 0 <= i < la.len() implies is_white_space(#[trigger] la[i]) by {
        lemma_lower_keeps(a[i]);
    }
    assert forall|i: int| 0 <= i < lb.len() implies lb[i] == '/' || is_white_space(
        #[trigger] lb[i],
    ) by {
        lemma_lower_keeps((c + b)[i]);
    }
    (la, lb)
}

/// What a part of a text contains, the text contains.
proof fn lemma_contains_in_part(a: Seq<char>, s: Seq<char>, b: Seq<char>, pat: Seq<char>)
    requires
        contains(s, pat),
    ensures
        contains(a + s + b, pat),
{
    let i = choose|i: int| occurs_at(s, pat, i);
    assert(occurs_at(s, pat, i));
    let t = a + s + b;
    assert(t.subrange(a.len() + i, a.len() + i + pat.len()) =~= s.subrange(i, i + pat.len()));
    assert(occurs_at(t, pat, a.len() + i));
}

/// The canonical form contains nothing that the URL in small letters does not.
proof fn lemma_contains_in_canonical(url: Seq<char>, pat: Seq<char>)
    requires
        contains(canonical(url), pat),
    ensures
        contains(to_ascii_lowercase(url), pat),
{
    let (a, b) = lemma_canonical_parts(url);
    lemma_contains_in_part(a, canonical(url), b, pat);
}

/// A text that neither begins with whitespace nor ends with whitespace or a slash
/// is not cut by making the URL canonical.
proof fn lemma_canonical_contains(url: Seq<char>, pat: Seq<char>)
    requires
        contains(to_ascii_lowercase(url), pat),
        pat.len() > 0,
        !is_white_space(pat[0]),
        !is_white_space(pat.last()),
        pat.last() != '/',
    ensures
        contains(canonical(url), pat),
{
    let (a, b) = lemma_canonical_parts(url);
    let (l, u) = (to_ascii_lowercase(url), canonical(url));
    let i = choose|i: int| occurs_at(l, pat, i);
    assert(occurs_at(l, pat, i));
    let sub = l.subrange(i, i + pat.len());
    assert(sub[0] == l[i]);
    assert(sub[pat.len() - 1] == l[i + pat.len() - 1]);
    if i < a.len() {
        assert(l[i] == a[i]);
    }
    if i + pat.len() > a.len() + u.len() {
        let k = i + pat.len() - 1 - a.len() - u.len();
        assert(l[i + pat.len() - 1] == b[k]);
    }
    assert(u.subrange(i - a.len(), i - a.len() + pat.len()) =~= sub);
    assert(occurs_at(u, pat, i - a.len()));
}

/// A URL with the CC0 marker in it, in whatever case, names CC0; one without it but
/// with the public domain mark names the public domain.
pub proof fn law_public_domain(url: Seq<char>)
    ensures
        contains(to_ascii_lowercase(url), "publicdomain/zero"@) ==> identifier(canonical(url))
            == Some("CC0-1.0"@),
        !contains(to_ascii_lowercase(url), "publicdomain/zero"@) && contains(
            to_ascii_lowercase(url),
            "publicdomain/mark"@,
        ) ==> identifier(canonical(url)) == Some("PublicDomain"@),
{
    reveal_strlit("publicdomain/zero");
    reveal_strlit("publicdomain/mark");
    if contains(to_ascii_lowercase(url), "publicdomain/zero"@) {
        lemma_canonical_contains(url, "publicdomain/zero"@);
    } else if contains(to_ascii_lowercase(url), "publicdomain/mark"@) {
        if contains(canonical(url), "publicdomain/zero"@) {
            lemma_contains_in_canonical(url, "publicdomain/zero"@);
        }
        lemma_canonical_contains(url, "publicdomain/mark"@);
    }
}

/// The URL has no public domain marker.
pub open spec fn no_public_domain(url: Seq<char>) -> bool {
    !contains(to_ascii_lowercase(url), "publicdomain/zero"@) && !contains(
        to_ascii_lowercase(url),
        "publicdomain/mark"@,
    )
}

/// A URL without any of the markers names no licence.
pub proof fn law_no_marker_no_licence(url: Seq<char>)
    requires
        no_public_domain(url),
        !contains(to_ascii_lowercase(url), "/licenses/"@),
    ensures
        identifier(canonical(url)) is None,
{
    let u = canonical(url);
    if contains(u, "publicdomain/zero"@) {
        lemma_contains_in_canonical(url, "publicdomain/zero"@);
    }
    if contains(u, "publicdomain/mark"@) {
        lemma_contains_in_canonical(url, "publicdomain/mark"@);
    }
    if contains(u, "/licenses/"@) {
        lemma_contains_in_canonical(url, "/licenses/"@);
    }
    crate::text::lemma_find_contains(u, "/licenses/"@);
    reveal_with_fuel(nth_part, 2);
}

/// The first marker is where it is first put: no occurrence begins before.
proof fn lemma_first_marker(q: Seq<char>, x: Seq<char>)
    requires
        !contains(q + "/licenses"@, "/licenses/"@),
    ensures
        find(q + "/licenses/"@ + x, "/licenses/"@, 0) == Some(q.len() as int),
{
    reveal_strlit("/licenses/");
    reveal_strlit("/licenses");
    let m = "/licenses/"@;
    let u = q + m + x;
    assert forall|i: int| 0 <= i < q.len() implies !occurs_at(u, m, i) by {
        if occurs_at(u, m, i) {
            let s = q + "/licenses"@;
            assert(s =~= u.subrange(0, (q.len() + 9) as int));
            assert(s.subrange(i, i + m.len()) =~= u.subrange(i, i + m.len()));
            assert(occurs_at(s, m, i));
        }
    }
    lemma_find_skip(u, m, 0, q.len() as int);
    assert(u.subrange(q.len() as int, (q.len() + m.len()) as int) =~= m);
}

/// The first part of a text split at slashes is what comes before the first slash.
proof fn lemma_first_segment(a: Seq<char>, t: Seq<char>)
    requires
        !a.contains('/'),
        t.len() > 0 ==> t[0] == '/',
    ensures
        nth_part(a + t, "/"@, 0) == Some(a),
        find(a + t, "/"@, 0) == (if t.len() > 0 {
            Some(a.len() as int)
        } else {
            None
        }),
{
    reveal_strlit("/");
    let slash = "/"@;
    let s = a + t;
    assert forall|i: int| 0 <= i < a.len() implies !occurs_at(s, slash, i) by {
        if occurs_at(s, slash, i) {
            assert(s.subrange(i, i + 1)[0] == a[i]);
            assert(a.contains('/'));
        }
    }
    lemma_find_skip(s, slash, 0, a.len() as int);
    if t.len() > 0 {
        assert(s.subrange(a.len() as int, (a.len() + 1) as int) =~= slash);
        assert(s.subrange(0, a.len() as int) =~= a);
    } else {
        assert(s =~= a);
    }
}

/// The second part of a text split at slashes is what comes between the first slash
/// and the next.
proof fn lemma_second_segment(a: Seq<char>, b: Seq<char>, t: Seq<char>)
    requires
        !a.contains('/'),
        !b.contains('/'),
        t.len() > 0 ==> t[0] == '/',
    ensures
        nth_part(a + "/"@ + b + t, "/"@, 0) == Some(a),
        nth_part(a + "/"@ + b + t, "/"@, 1) == Some(b),
{
    reveal_strlit("/");
    let slash = "/"@;
    let s = a + slash + b + t;
    let tail = slash + b + t;
    assert(s =~= a + tail);
    assert(tail[0] == '/');
    lemma_first_segment(a, tail);
    lemma_first_segment(b, t);
    assert(s.subrange((a.len() + 1) as int, s.len() as int) =~= b + t);
    reveal_with_fuel(nth_part, 2);
}

/// Small letters in between do not change capitals.
proof fn lemma_upper_of_lower(s: Seq<char>)
    ensures
        to_ascii_uppercase(to_ascii_lowercase(s)) == to_ascii_uppercase(s),
{
    assert(to_ascii_uppercase(to_ascii_lowercase(s)) =~= to_ascii_uppercase(s));
}

/// Small letters keep slashes where they are.
proof fn lemma_lower_slashes(s: Seq<char>)
    requires
        !s.contains('/'),
    ensures
        !to_ascii_lowercase(s).contains('/'),
{
    let l = to_ascii_lowercase(s);
    if l.contains('/') {
        let i = choose|i: int| 0 <= i < l.len() && l[i] == '/';
        lemma_lower_keeps(s[i]);
    }
}

/// The marker in small letters is the marker.
proof fn lemma_lower_marker()
    ensures
        to_ascii_lowercase("/licenses/"@) == "/licenses/"@,
        to_ascii_lowercase("/licenses"@) == "/licenses"@,
        to_ascii_lowercase("/"@) == "/"@,
{
    reveal_strlit("/licenses/");
    reveal_strlit("/licenses");
    reveal_strlit("/");
    assert(to_ascii_lowercase("/licenses/"@) =~= "/licenses/"@);
    assert(to_ascii_lowercase("/licenses"@) =~= "/licenses"@);
    assert(to_ascii_lowercase("/"@) =~= "/"@);
}

/// The canonical form of a URL `p + m + v + j` in which `m` begins with no
/// whitespace and `m + v` ends with neither whitespace nor a slash: only the
/// beginning of `p` and the end of `j` are cut.
proof fn lemma_canonical_of(p: Seq<char>, m: Seq<char>, j: Seq<char>) -> (r: Seq<char>)
    requires
        m.len() > 0,
        !is_white_space(m[0]),
        !is_white_space(m.last()),
        m.last() != '/',
        j.len() > 0 ==> j[0] == '/',
    ensures
        canonical(p + m + j) == to_ascii_lowercase(trim_start(p)) + to_ascii_lowercase(m)
            + to_ascii_lowercase(r),
        r.len() > 0 ==> j.len() > 0 && r[0] == '/',
{
    let a = lemma_trim_start_parts(p);
    let q = trim_start(p);
    let b = lemma_trim_end_parts(j);
    let te = trim_end(j);
    let c = lemma_trim_end_char_parts(te, '/');
    let r = trim_end_char(te, '/');
    let t = q + m + te;
    assert(p + m + j =~= a + t + b);
    assert(t[0] == if q.len() > 0 {
        q[0]
    } else {
        m[0]
    });
    assert(t.last() == if te.len() > 0 {
        te.last()
    } else {
        m.last()
    });
    lemma_trim_is(a, t, b);
    let u = q + m + r;
    assert(t =~= u + c);
    assert(u.last() == if r.len() > 0 {
        r.last()
    } else {
        m.last()
    });
    lemma_trim_end_char_is(u, c, '/');
    assert(to_ascii_lowercase(u) =~= to_ascii_lowercase(q) + to_ascii_lowercase(m)
        + to_ascii_lowercase(r));
    if r.len() > 0 {
        assert(te[0] == r[0]);
        assert(j[0] == te[0]);
    }
    r
}

/// What precedes the marker is no shorter for its leading whitespace.
proof fn lemma_marker_after_trim(p: Seq<char>)
    requires
        !contains(to_ascii_lowercase(p) + "/licenses"@, "/licenses/"@),
    ensures
        !contains(to_ascii_lowercase(trim_start(p)) + "/licenses"@, "/licenses/"@),
{
    let a = lemma_trim_start_parts(p);
    let s = to_ascii_lowercase(trim_start(p)) + "/licenses"@;
    if contains(s, "/licenses/"@) {
        let e = Seq::<char>::empty();
        lemma_contains_in_part(to_ascii_lowercase(a), s, e, "/licenses/"@);
        assert(to_ascii_lowercase(a) + s + e =~= to_ascii_lowercase(p) + "/licenses"@);
    }
}

/// A licence URL names its variant and its version, whole and nothing more: of
/// `<host>/licenses/<variant>/<version>`, with or without a jurisdiction or whatever
/// else may follow behind a slash, the identifier is `CC-<VARIANT>-<version>`. The
/// first marker counts, and there is no public domain marker. A version that is
/// called like the marker would be one where something follows.
#[verifier::rlimit(40)]
pub proof fn law_a_licence_names_its_variant_and_version(
    host: Seq<char>,
    variant: Seq<char>,
    version: Seq<char>,
    more: Seq<char>,
)
    requires
        variant.len() > 0,
        version.len() > 0,
        !variant.contains('/'),
        !version.contains('/'),
        !is_white_space(version.last()),
        more.len() > 0 ==> more[0] == '/' && to_ascii_lowercase(version) != "licenses"@,
        !contains(to_ascii_lowercase(host) + "/licenses"@, "/licenses/"@),
        no_public_domain(host + "/licenses/"@ + variant + "/"@ + version + more),
    ensures
        identifier(canonical(host + "/licenses/"@ + variant + "/"@ + version + more)) == Some(
            "CC-"@ + to_ascii_uppercase(variant) + "-"@ + to_ascii_lowercase(version),
        ),
{
    reveal_strlit("/licenses/");
    reveal_strlit("licenses");
    reveal_strlit("/");
    lemma_lower_marker();
    let marker = "/licenses/"@;
    let slash = "/"@;
    let url = host + marker + variant + slash + version + more;
    let m = marker + variant + slash + version;
    assert(url =~= host + m + more);
    assert(m.last() == version.last());
    let r = lemma_canonical_of(host, m, more);
    let q = to_ascii_lowercase(trim_start(host));
    let (lv, lw, lr) = (
        to_ascii_lowercase(variant),
        to_ascii_lowercase(version),
        to_ascii_lowercase(r),
    );
    let x = lv + slash + lw + lr;
    let u = canonical(url);
    assert(to_ascii_lowercase(m) =~= marker + lv + slash + lw);
    assert(u =~= q + marker + x);
    lemma_marker_after_trim(host);
    lemma_first_marker(q, x);
    lemma_lower_slashes(variant);
    lemma_lower_slashes(version);
    if r.len() > 0 {
        lemma_lower_keeps(r[0]);
    }
    if contains(u, "publicdomain/zero"@) {
        lemma_contains_in_canonical(url, "publicdomain/zero"@);
    }
    if contains(u, "publicdomain/mark"@) {
        lemma_contains_in_canonical(url, "publicdomain/mark"@);
    }
    assert(u.subrange((q.len() + marker.len()) as int, u.len() as int) =~= x);
    lemma_find(x, marker, 0);
    let base = lv.len() + 1 + lw.len();
    let rest = match find(x, marker, 0) {
        Some(i) => x.subrange(0, i),
        None => x,
    };
    reveal_with_fuel(nth_part, 2);
    assert(nth_part(u, marker, 1) == Some(rest));
    let t = match find(x, marker, 0) {
        Some(i) => lr.subrange(0, i - base),
        None => lr,
    };
    if let Some(i) = find(x, marker, 0) {
        let sub = x.subrange(i, i + marker.len());
        assert(sub[0] == x[i] && sub[9] == x[i + 9]);
        if i < base {
            if i < lv.len() {
                assert(x[i] == lv[i]);
                assert(lv.contains('/'));
            } else if i > lv.len() {
                assert(x[i] == lw[i - lv.len() - 1]);
                assert(lw.contains('/'));
            } else {
                assert(forall|k: int| 0 <= k < lw.len() ==> x[i + 1 + k] == lw[k]);
                if lw.len() > 8 {
                    assert(x[i + 9] == lw[8]);
                    assert(lw.contains('/'));
                } else if lw.len() < 8 {
                    assert(x[i + 1 + lw.len()] == lr[0]);
                    assert(sub[(1 + lw.len()) as int] == '/');
                } else {
                    assert forall|k: int| 0 <= k < 8 implies lw[k] == "licenses"@[k] by {
                        assert(sub[1 + k] == x[i + 1 + k]);
                        assert(marker[1 + k] == "licenses"@[k]);
                    }
                    assert(lw =~= "licenses"@);
                    assert(x[i + 9] == lr[0]);
                }
            }
        }
        assert(i >= base);
        assert(rest =~= lv + slash + lw + t);
    }
    lemma_second_segment(lv, lw, t);
    lemma_upper_of_lower(variant);
}

/// A licence URL that ends with its variant names version 4.0 of it.
pub proof fn law_a_licence_without_a_version_is_four(host: Seq<char>, variant: Seq<char>)
    requires
        variant.len() > 0,
        !variant.contains('/'),
        !is_white_space(variant.last()),
        !contains(to_ascii_lowercase(host) + "/licenses"@, "/licenses/"@),
        no_public_domain(host + "/licenses/"@ + variant),
    ensures
        identifier(canonical(host + "/licenses/"@ + variant)) == Some(
            "CC-"@ + to_ascii_uppercase(variant) + "-"@ + "4.0"@,
        ),
{
    reveal_strlit("/licenses/");
    reveal_strlit("/");
    lemma_lower_marker();
    let marker = "/licenses/"@;
    let e = Seq::<char>::empty();
    let url = host + marker + variant;
    let m = marker + variant;
    assert(url =~= host + m + e);
    assert(m.last() == variant.last());
    let r = lemma_canonical_of(host, m, e);
    let q = to_ascii_lowercase(trim_start(host));
    let lv = to_ascii_lowercase(variant);
    let u = canonical(url);
    assert(to_ascii_lowercase(m) =~= marker + lv);
    assert(u =~= q + marker + lv);
    lemma_marker_after_trim(host);
    lemma_first_marker(q, lv);
    lemma_lower_slashes(variant);
    if contains(u, "publicdomain/zero"@) {
        lemma_contains_in_canonical(url, "publicdomain/zero"@);
    }
    if contains(u, "publicdomain/mark"@) {
        lemma_contains_in_canonical(url, "publicdomain/mark"@);
    }
    assert(u.subrange((q.len() + marker.len()) as int, u.len() as int) =~= lv);
    lemma_find(lv, marker, 0);
    if let Some(i) = find(lv, marker, 0) {
        assert(lv.subrange(i, i + marker.len())[0] == lv[i]);
        assert(lv.contains('/'));
    }
    lemma_first_segment(lv, e);
    assert(lv + e =~= lv);
    reveal_with_fuel(nth_part, 2);
    lemma_upper_of_lower(variant);
}

/// A second marker right behind the variant ends the licence: no version is named.
#[verifier::rlimit(40)]
pub proof fn law_a_second_marker_ends_the_licence(
    host: Seq<char>,
    variant: Seq<char>,
    more: Seq<char>,
)
    requires
        variant.len() > 0,
        !variant.contains('/'),
        more.len() > 0,
        !is_white_space(more.last()),
        more.last() != '/',
        !contains(to_ascii_lowercase(host) + "/licenses"@, "/licenses/"@),
        no_public_domain(host + "/licenses/"@ + variant + "/licenses/"@ + more),
    ensures
        identifier(canonical(host + "/licenses/"@ + variant + "/licenses/"@ + more)) == Some(
            "CC-"@ + to_ascii_uppercase(variant) + "-"@ + "4.0"@,
        ),
{
    reveal_strlit("/licenses/");
    reveal_strlit("/");
    lemma_lower_marker();
    let marker = "/licenses/"@;
    let e = Seq::<char>::empty();
    let url = host + marker + variant + marker + more;
    let m = marker + variant + marker + more;
    assert(url =~= host + m + e);
    assert(m.last() == more.last());
    let r = lemma_canonical_of(host, m, e);
    let q = to_ascii_lowercase(trim_start(host));
    let lv = to_ascii_lowercase(variant);
    let x = lv + marker + to_ascii_lowercase(more);
    let u = canonical(url);
    assert(to_ascii_lowercase(m) =~= marker + x);
    assert(u =~= q + marker + x);
    lemma_marker_after_trim(host);
    lemma_first_marker(q, x);
    lemma_lower_slashes(variant);
    if contains(u, "publicdomain/zero"@) {
        lemma_contains_in_canonical(url, "publicdomain/zero"@);
    }
    if contains(u, "publicdomain/mark"@) {
        lemma_contains_in_canonical(url, "publicdomain/mark"@);
    }
    assert(u.subrange((q.len() + marker.len()) as int, u.len() as int) =~= x);
    assert forall|i: int| 0 <= i < lv.len() implies !occurs_at(x, marker, i) by {
        if occurs_at(x, marker, i) {
            assert(x.subrange(i, i + marker.len())[0] == lv[i]);
            assert(lv.contains('/'));
        }
    }
    lemma_find_skip(x, marker, 0, lv.len() as int);
    assert(x.subrange(lv.len() as int, (lv.len() + marker.len()) as int) =~= marker);
    assert(x.subrange(0, lv.len() as int) =~= lv);
    lemma_first_segment(lv, e);
    assert(lv + e =~= lv);
    reveal_with_fuel(nth_part, 2);
    lemma_upper_of_lower(variant);
}

/// A licence URL whose variant is empty names no licence.
pub proof fn law_an_empty_variant_names_no_licence(host: Seq<char>, more: Seq<char>)
    requires
        more.len() > 0,
        !is_white_space(more.last()),
        more.last() != '/',
        !contains(to_ascii_lowercase(host) + "/licenses"@, "/licenses/"@),
        no_public_domain(host + "/licenses/"@ + "/"@ + more),
    ensures
        identifier(canonical(host + "/licenses/"@ + "/"@ + more)) is None,
{
    reveal_strlit("/licenses/");
    reveal_strlit("/");
    lemma_lower_marker();
    let marker = "/licenses/"@;
    let e = Seq::<char>::empty();
    let url = host + marker + "/"@ + more;
    let m = marker + "/"@ + more;
    assert(url =~= host + m + e);
    assert(m.last() == more.last());
    let r = lemma_canonical_of(host, m, e);
    let q = to_ascii_lowercase(trim_start(host));
    let x = "/"@ + to_ascii_lowercase(more);
    let u = canonical(url);
    assert(to_ascii_lowercase(m) =~= marker + x);
    assert(u =~= q + marker + x);
    lemma_marker_after_trim(host);
    lemma_first_marker(q, x);
    if contains(u, "publicdomain/zero"@) {
        lemma_contains_in_canonical(url, "publicdomain/zero"@);
    }
    if contains(u, "publicdomain/mark"@) {
        lemma_contains_in_canonical(url, "publicdomain/mark"@);
    }
    assert(u.subrange((q.len() + marker.len()) as int, u.len() as int) =~= x);
    lemma_find(x, marker, 0);
    let rest = match find(x, marker, 0) {
        Some(i) => x.subrange(0, i),
        None => x,
    };
    reveal_with_fuel(nth_part, 2);
    assert(nth_part(u, marker, 1) == Some(rest));
    lemma_first_segment(e, rest);
    assert(e + rest =~= rest);
}

/// Different licences have different identifiers: two licence URLs have one
/// identifier exactly if they name the same variant and the same version, up to the
/// case of letters. A version has no hyphen.
pub proof fn law_identifiers_tell_licences_apart(
    host: Seq<char>,
    variant: Seq<char>,
    version: Seq<char>,
    other_host: Seq<char>,
    other_variant: Seq<char>,
    other_version: Seq<char>,
)
    requires
        variant.len() > 0,
        version.len() > 0,
        !variant.contains('/'),
        !version.contains('/'),
        !version.contains('-'),
        !is_white_space(version.last()),
        !contains(to_ascii_lowercase(host) + "/licenses"@, "/licenses/"@),
        no_public_domain(host + "/licenses/"@ + variant + "/"@ + version),
        other_variant.len() > 0,
        other_version.len() > 0,
        !other_variant.contains('/'),
        !other_version.contains('/'),
        !other_version.contains('-'),
        !is_white_space(other_version.last()),
        !contains(to_ascii_lowercase(other_host) + "/licenses"@, "/licenses/"@),
        no_public_domain(other_host + "/licenses/"@ + other_variant + "/"@ + other_version),
    ensures
        identifier(canonical(host + "/licenses/"@ + variant + "/"@ + version)) == identifier(
            canonical(other_host + "/licenses/"@ + other_variant + "/"@ + other_version),
        ) <==> to_ascii_lowercase(variant) == to_ascii_lowercase(other_variant)
            && to_ascii_lowercase(version) == to_ascii_lowercase(other_version),
{
    let e = Seq::<char>::empty();
    let (u1, u2) = (
        host + "/licenses/"@ + variant + "/"@ + version,
        other_host + "/licenses/"@ + other_variant + "/"@ + other_version,
    );
    assert(u1 + e =~= u1);
    assert(u2 + e =~= u2);
    law_a_licence_names_its_variant_and_version(host, variant, version, e);
    law_a_licence_names_its_variant_and_version(other_host, other_variant, other_version, e);
    let (v1, v2) = (to_ascii_uppercase(variant), to_ascii_uppercase(other_variant));
    let (w1, w2) = (to_ascii_lowercase(version), to_ascii_lowercase(other_version));
    lemma_same_case(variant, other_variant);
    lemma_lower_hyphens(version);
    lemma_lower_hyphens(other_version);
    lemma_cc_parts(v1, w1, v2, w2);
}

/// Texts are equal in capitals exactly if they are in small letters.
proof fn lemma_same_case(a: Seq<char>, b: Seq<char>)
    ensures
        to_ascii_uppercase(a) == to_ascii_uppercase(b) <==> to_ascii_lowercase(a)
            == to_ascii_lowercase(b),
{
    let (ua, ub) = (to_ascii_uppercase(a), to_ascii_uppercase(b));
    let (la, lb) = (to_ascii_lowercase(a), to_ascii_lowercase(b));
    assert(la.len() == a.len() && ua.len() == a.len());
    assert(lb.len() == b.len() && ub.len() == b.len());
    if ua == ub {
        assert forall|i: int| 0 <= i < la.len() implies la[i] == lb[i] by {
            assert(ua[i] == ub[i]);
            assert(ua[i] == ascii_upper(a[i]) && ub[i] == ascii_upper(b[i]));
        }
        assert(la =~= lb);
    }
    if la == lb {
        assert forall|i: int| 0 <= i < ua.len() implies ua[i] == ub[i] by {
            assert(la[i] == lb[i]);
            assert(la[i] == ascii_lower(a[i]) && lb[i] == ascii_lower(b[i]));
        }
        assert(ua =~= ub);
    }
}

/// Small letters make no hyphens.
proof fn lemma_lower_hyphens(s: Seq<char>)
    requires
        !s.contains('-'),
    ensures
        !to_ascii_lowercase(s).contains('-'),
{
    let l = to_ascii_lowercase(s);
    if l.contains('-') {
        let i = choose|i: int| 0 <= i < l.len() && l[i] == '-';
        assert(s[i] == '-');
    }
}

/// The last hyphen parts variant and version.
proof fn lemma_cc_parts(v1: Seq<char>, w1: Seq<char>, v2: Seq<char>, w2: Seq<char>)
    requires
        !w1.contains('-'),
        !w2.contains('-'),
    ensures
        "CC-"@ + v1 + "-"@ + w1 == "CC-"@ + v2 + "-"@ + w2 <==> v1 == v2 && w1 == w2,
{
    reveal_strlit("CC-");
    reveal_strlit("-");
    let (s1, s2) = ("CC-"@ + v1 + "-"@ + w1, "CC-"@ + v2 + "-"@ + w2);
    if s1 == s2 {
        let (n1, n2) = (3 + v1.len() as int, 3 + v2.len() as int);
        assert(s1.len() == n1 + 1 + w1.len() && s2.len() == n2 + 1 + w2.len());
        assert(s1[n1] == '-' && s2[n2] == '-');
        if n1 < n2 {
            assert(s1[n2] == w1[n2 - n1 - 1]);
            assert(w1.contains('-'));
        }
        if n2 < n1 {
            assert(s2[n1] == w2[n1 - n2 - 1]);
            assert(w2.contains('-'));
        }
        assert(v1 =~= s1.subrange(3, n1));
        assert(v2 =~= s2.subrange(3, n2));
        assert(w1 =~= s1.subrange(n1 + 1, s1.len() as int));
        assert(w2 =~= s2.subrange(n2 + 1, s2.len() as int));
    }
}

} // verus!
