//! Text as sequences of characters: whitespace, ASCII case, searching.

use vstd::prelude::*;

verus! {

/// `String::push` appends the character.
pub assume_specification[ String::push ](s: &mut String, c: char)
    ensures
        final(s)@ == old(s)@.push(c),
;

/// Whether `c` has the Unicode property `White_Space`.
pub open spec fn is_white_space(c: char) -> bool {
    let n = c as u32;
    ||| 0x9 <= n <= 0xd
    ||| n == 0x20
    ||| n == 0x85
    ||| n == 0xa0
    ||| n == 0x1680
    ||| 0x2000 <= n <= 0x200a
    ||| n == 0x2028
    ||| n == 0x2029
    ||| n == 0x202f
    ||| n == 0x205f
    ||| n == 0x3000
}

/// `c` with an ASCII capital made small.
pub open spec fn ascii_lower(c: char) -> char {
    if 'A' <= c <= 'Z' {
        (c as u32 + 32) as char
    } else {
        c
    }
}

/// `c` with a small ASCII letter made a capital.
pub open spec fn ascii_upper(c: char) -> char {
    if 'a' <= c <= 'z' {
        (c as u32 - 32) as char
    } else {
        c
    }
}

/// `s` with its ASCII capitals made small.
pub open spec fn to_ascii_lowercase(s: Seq<char>) -> Seq<char> {
    s.map_values(|c: char| ascii_lower(c))
}

/// `s` with its small ASCII letters made capitals.
pub open spec fn to_ascii_uppercase(s: Seq<char>) -> Seq<char> {
    s.map_values(|c: char| ascii_upper(c))
}

/// `s` without its leading whitespace.
pub open spec fn trim_start(s: Seq<char>) -> Seq<char>
    decreases s.len(),
{
    if s.len() > 0 && is_white_space(s[0]) {
        trim_start(s.drop_first())
    } else {
        s
    }
}

/// `s` without its trailing whitespace.
pub open spec fn trim_end(s: Seq<char>) -> Seq<char>
    decreases s.len(),
{
    if s.len() > 0 && is_white_space(s.last()) {
        trim_end(s.drop_last())
    } else {
        s
    }
}

/// `s` without the whitespace around it.
pub open spec fn trim(s: Seq<char>) -> Seq<char> {
    trim_end(trim_start(s))
}

/// `s` without the `c`s at its end.
pub open spec fn trim_end_char(s: Seq<char>, c: char) -> Seq<char>
    decreases s.len(),
{
    if s.len() > 0 && s.last() == c {
        trim_end_char(s.drop_last(), c)
    } else {
        s
    }
}

/// Whether `pat` stands in `s` at `i`.
pub open spec fn occurs_at(s: Seq<char>, pat: Seq<char>, i: int) -> bool {
    0 <= i && i + pat.len() <= s.len() && s.subrange(i, i + pat.len()) == pat
}

/// Where `pat` first stands in `s` at `from` or later.
pub open spec fn find(s: Seq<char>, pat: Seq<char>, from: int) -> Option<int>
    decreases s.len() + 1 - from,
{
    if from + pat.len() > s.len() {
        None
    } else if occurs_at(s, pat, from) {
        Some(from)
    } else {
        find(s, pat, from + 1)
    }
}

/// Whether `pat` stands in `s` anywhere.
pub open spec fn contains(s: Seq<char>, pat: Seq<char>) -> bool {
    exists|i: int| occurs_at(s, pat, i)
}

/// The `n`th of the parts, counted from zero, into which the occurrences of
/// `sep`, taken from the front without overlap, split `s`.
pub open spec fn nth_part(s: Seq<char>, sep: Seq<char>, n: nat) -> Option<Seq<char>>
    decreases n,
{
    match find(s, sep, 0) {
        Some(i) => if n == 0 {
            Some(s.subrange(0, i))
        } else {
            nth_part(s.subrange(i + sep.len(), s.len() as int), sep, (n - 1) as nat)
        },
        None => if n == 0 {
            Some(s)
        } else {
            None
        },
    }
}

/// Whether `c` has the Unicode property `White_Space`.
pub(crate) fn char_is_white_space(c: char) -> (r: bool)
    ensures
        r == is_white_space(c),
{
    let n: u32 = c as u32;
    (0x9 <= n && n <= 0xd) || n == 0x20 || n == 0x85 || n == 0xa0 || n == 0x1680 || (0x2000 <= n
        && n <= 0x200a) || n == 0x2028 || n == 0x2029 || n == 0x202f || n == 0x205f || n == 0x3000
}

/// `c` with an ASCII capital made small.
pub(crate) fn char_to_ascii_lower(c: char) -> (r: char)
    ensures
        r == ascii_lower(c),
{
    if 'A' <= c && c <= 'Z' {
        ((c as u8) + 32) as char
    } else {
        c
    }
}

/// `c` with a small ASCII letter made a capital.
pub(crate) fn char_to_ascii_upper(c: char) -> (r: char)
    ensures
        r == ascii_upper(c),
{
    if 'a' <= c && c <= 'z' {
        ((c as u8) - 32) as char
    } else {
        c
    }
}

/// The characters of `s`.
pub(crate) fn chars_of(s: &str) -> (r: Vec<char>)
    ensures
        r@ == s@,
{
    let mut out: Vec<char> = Vec::new();
    for c in it: s.chars()
        invariant
            out@ == it.seq().take(it.index()),
    {
        proof {
            assert(it.seq().take(it.index() + 1) =~= it.seq().take(it.index()).push(c));
        }
        out.push(c);
    }
    out
}

/// Appends the characters of `part`.
pub(crate) fn push_all(s: &mut String, part: &Vec<char>)
    ensures
        final(s)@ == old(s)@ + part@,
{
    let mut i: usize = 0;
    proof {
        assert(old(s)@ + part@.take(0) =~= old(s)@);
    }
    while i < part.len()
        invariant
            i <= part.len(),
            s@ == old(s)@ + part@.take(i as int),
        decreases part.len() - i,
    {
        proof {
            assert(old(s)@ + part@.take(i + 1) =~= (old(s)@ + part@.take(i as int)).push(
                part@[i as int],
            ));
        }
        s.push(part[i]);
        i += 1;
    }
    proof {
        assert(part@.take(i as int) =~= part@);
    }
}

/// A copy of `s[from..to]`.
pub(crate) fn copy_range(s: &Vec<char>, from: usize, to: usize) -> (r: Vec<char>)
    requires
        from <= to <= s.len(),
    ensures
        r@ == s@.subrange(from as int, to as int),
{
    let mut out: Vec<char> = Vec::new();
    let mut i: usize = from;
    while i < to
        invariant
            from <= i <= to <= s.len(),
            out@ == s@.subrange(from as int, i as int),
        decreases to - i,
    {
        proof {
            assert(s@.subrange(from as int, i + 1) =~= s@.subrange(from as int, i as int).push(
                s@[i as int],
            ));
        }
        out.push(s[i]);
        i += 1;
    }
    out
}

/// Whether `pat` stands in `s` at `i`.
fn matches_at(s: &Vec<char>, pat: &Vec<char>, i: usize) -> (r: bool)
    requires
        i + pat.len() <= s.len(),
    ensures
        r == occurs_at(s@, pat@, i as int),
{
    let mut k: usize = 0;
    while k < pat.len()
        invariant
            k <= pat.len(),
            i + pat.len() <= s.len(),
            forall|j: int| 0 <= j < k ==> s@[i + j] == #[trigger] pat@[j],
        decreases pat.len() - k,
    {
        if s[i + k] != pat[k] {
            proof {
                assert(s@.subrange(i as int, i + pat@.len())[k as int] != pat@[k as int]);
            }
            return false;
        }
        k += 1;
    }
    proof {
        assert(s@.subrange(i as int, i + pat@.len()) =~= pat@);
    }
    true
}

/// Where `pat` first stands in `s` at `from` or later.
pub(crate) fn find_from(s: &Vec<char>, pat: &Vec<char>, from: usize) -> (r: Option<usize>)
    requires
        from <= s.len(),
    ensures
        find(s@, pat@, from as int) == (match r {
            Some(i) => Some(i as int),
            None => None,
        }),
        r matches Some(i) ==> from <= i && i + pat.len() <= s.len(),
{
    if pat.len() > s.len() {
        return None;
    }
    let last: usize = s.len() - pat.len();
    let mut i: usize = from;
    while i <= last
        invariant
            from <= i <= s.len(),
            last + pat.len() == s.len(),
            find(s@, pat@, from as int) == find(s@, pat@, i as int),
        decreases s.len() + 1 - i,
    {
        if matches_at(s, pat, i) {
            return Some(i);
        }
        if i == last {
            proof {
                assert(find(s@, pat@, i + 1) is None);
            }
            return None;
        }
        i += 1;
    }
    None
}

/// The `n`th part of `s` split at `sep`.
pub(crate) fn split_nth(s: &Vec<char>, sep: &Vec<char>, n: usize) -> (r: Option<Vec<char>>)
    ensures
        match r {
            Some(part) => nth_part(s@, sep@, n as nat) == Some(part@),
            None => nth_part(s@, sep@, n as nat) is None,
        },
{
    let mut rest: Vec<char> = copy_range(s, 0, s.len());
    let mut k: usize = n;
    proof {
        assert(rest@ =~= s@);
    }
    while k > 0
        invariant
            nth_part(s@, sep@, n as nat) == nth_part(rest@, sep@, k as nat),
        decreases k,
    {
        match find_from(&rest, sep, 0) {
            Some(i) => {
                rest = copy_range(&rest, i + sep.len(), rest.len());
            },
            None => {
                return None;
            },
        }
        k -= 1;
    }
    match find_from(&rest, sep, 0) {
        Some(i) => Some(copy_range(&rest, 0, i)),
        None => Some(rest),
    }
}

/// Whether `pat` stands in `s` anywhere.
pub(crate) fn has(s: &Vec<char>, pat: &Vec<char>) -> (r: bool)
    ensures
        r == contains(s@, pat@),
{
    proof {
        lemma_find_contains(s@, pat@);
    }
    find_from(s, pat, 0).is_some()
}

/// `s` without the whitespace around it.
pub(crate) fn trimmed(s: &Vec<char>) -> (r: Vec<char>)
    ensures
        r@ == trim(s@),
{
    let mut from: usize = 0;
    let mut to: usize = s.len();
    proof {
        assert(s@.subrange(0, s@.len() as int) =~= s@);
    }
    while from < to && char_is_white_space(s[from])
        invariant
            from <= to == s.len(),
            trim_start(s@) == trim_start(s@.subrange(from as int, to as int)),
        decreases to - from,
    {
        proof {
            assert(s@.subrange(from as int, to as int).drop_first() =~= s@.subrange(
                from + 1,
                to as int,
            ));
        }
        from += 1;
    }
    proof {
        assert(trim_start(s@) == s@.subrange(from as int, to as int));
    }
    while from < to && char_is_white_space(s[to - 1])
        invariant
            from <= to <= s.len(),
            trim(s@) == trim_end(s@.subrange(from as int, to as int)),
        decreases to - from,
    {
        proof {
            assert(s@.subrange(from as int, to as int).drop_last() =~= s@.subrange(
                from as int,
                to - 1,
            ));
        }
        to -= 1;
    }
    copy_range(s, from, to)
}

/// `s` without the `c`s at its end.
pub(crate) fn trimmed_end_char(s: &Vec<char>, c: char) -> (r: Vec<char>)
    ensures
        r@ == trim_end_char(s@, c),
{
    let mut to: usize = s.len();
    proof {
        assert(s@.subrange(0, s@.len() as int) =~= s@);
    }
    while to > 0 && s[to - 1] == c
        invariant
            to <= s.len(),
            trim_end_char(s@, c) == trim_end_char(s@.subrange(0, to as int), c),
        decreases to,
    {
        proof {
            assert(s@.subrange(0, to as int).drop_last() =~= s@.subrange(0, to - 1));
        }
        to -= 1;
    }
    copy_range(s, 0, to)
}

/// `s` with its ASCII capitals made small.
pub(crate) fn lowered(s: &Vec<char>) -> (r: Vec<char>)
    ensures
        r@ == to_ascii_lowercase(s@),
{
    let mut out: Vec<char> = Vec::new();
    let mut i: usize = 0;
    while i < s.len()
        invariant
            i <= s.len(),
            out@ == to_ascii_lowercase(s@).take(i as int),
        decreases s.len() - i,
    {
        proof {
            assert(to_ascii_lowercase(s@).take(i + 1) =~= to_ascii_lowercase(s@).take(
                i as int,
            ).push(ascii_lower(s@[i as int])));
        }
        out.push(char_to_ascii_lower(s[i]));
        i += 1;
    }
    proof {
        assert(to_ascii_lowercase(s@).take(i as int) =~= to_ascii_lowercase(s@));
    }
    out
}

/// `s` with its small ASCII letters made capitals.
pub(crate) fn uppered(s: &Vec<char>) -> (r: Vec<char>)
    ensures
        r@ == to_ascii_uppercase(s@),
{
    let mut out: Vec<char> = Vec::new();
    let mut i: usize = 0;
    while i < s.len()
        invariant
            i <= s.len(),
            out@ == to_ascii_uppercase(s@).take(i as int),
        decreases s.len() - i,
    {
        proof {
            assert(to_ascii_uppercase(s@).take(i + 1) =~= to_ascii_uppercase(s@).take(
                i as int,
            ).push(ascii_upper(s@[i as int])));
        }
        out.push(char_to_ascii_upper(s[i]));
        i += 1;
    }
    proof {
        assert(to_ascii_uppercase(s@).take(i as int) =~= to_ascii_uppercase(s@));
    }
    out
}

/// `pat` stands in `s` somewhere exactly if searching from the front finds it.
pub(crate) proof fn lemma_find_contains(s: Seq<char>, pat: Seq<char>)
    ensures
        contains(s, pat) == (find(s, pat, 0) is Some),
{
    lemma_find(s, pat, 0);
    if contains(s, pat) {
        let i = choose|i: int| occurs_at(s, pat, i);
        assert(occurs_at(s, pat, i));
    }
}

/// What [`find`] finds is an occurrence, and there is none before it.
pub(crate) proof fn lemma_find(s: Seq<char>, pat: Seq<char>, from: int)
    ensures
        match find(s, pat, from) {
            Some(i) => from <= i && occurs_at(s, pat, i) && forall|j: int|
                from <= j < i ==> !occurs_at(s, pat, j),
            None => forall|j: int| from <= j ==> !occurs_at(s, pat, j),
        },
    decreases s.len() + 1 - from,
{
    if from + pat.len() <= s.len() && !occurs_at(s, pat, from) {
        lemma_find(s, pat, from + 1);
    }
}

} // verus!
