//! Cache keys for searches.

use crate::text::{char_is_white_space, chars_of, is_white_space, push_all, to_ascii_lowercase};
use vstd::prelude::*;
use vstd::string::StringExecFns;

verus! {

/// What stands between the entity and the text of a key.
pub const SEPARATOR: char = '\u{1}';

/// `s` in small letters, by Unicode's rules.
pub uninterp spec fn lowercase(s: Seq<char>) -> Seq<char>;

/// `s` is ASCII.
pub open spec fn is_ascii(s: Seq<char>) -> bool {
    forall|i: int| 0 <= i < s.len() ==> (#[trigger] s[i] as u32) < 128
}

/// `str::to_lowercase`. Of ASCII text it makes the capitals small and nothing
/// else.
#[verifier::external_body]
fn lower(s: &str) -> (r: String)
    ensures
        r@ == lowercase(s@),
        is_ascii(s@) ==> r@ == to_ascii_lowercase(s@),
{
    s.to_lowercase()
}

/// The words of `s`: its longest runs without whitespace, in order.
pub open spec fn words(s: Seq<char>) -> Seq<Seq<char>>
    decreases s.len(),
{
    if s.len() == 0 {
        Seq::empty()
    } else {
        let before = words(s.drop_last());
        if is_white_space(s.last()) {
            before
        } else if s.len() > 1 && !is_white_space(s[s.len() - 2]) {
            before.drop_last().push(before.last().push(s.last()))
        } else {
            before.push(seq![s.last()])
        }
    }
}

/// `words` with one space between each two.
pub open spec fn joined(words: Seq<Seq<char>>) -> Seq<char>
    decreases words.len(),
{
    if words.len() == 0 {
        Seq::empty()
    } else if words.len() == 1 {
        words[0]
    } else {
        joined(words.drop_last()) + seq![' '] + words.last()
    }
}

/// `s` with its whitespace collapsed: one space between words, none around.
pub open spec fn collapsed(s: Seq<char>) -> Seq<char> {
    joined(words(s))
}

/// The key made of an entity and a normalised text.
pub open spec fn key_of(entity: Seq<char>, normalised: Seq<char>) -> Seq<char> {
    entity + seq![SEPARATOR] + normalised
}

/// The normalised form of a search text.
pub open spec fn normalised(text: Seq<char>) -> Seq<char> {
    lowercase(collapsed(text))
}

/// Words are not empty, and the last one is open exactly after a character that
/// is not whitespace.
pub(crate) proof fn lemma_words(s: Seq<char>)
    ensures
        forall|i: int| 0 <= i < words(s).len() ==> (#[trigger] words(s)[i]).len() > 0,
        s.len() > 0 && !is_white_space(s.last()) ==> words(s).len() > 0,
    decreases s.len(),
{
    if s.len() > 0 {
        lemma_words(s.drop_last());
        if !is_white_space(s.last()) && s.len() > 1 && !is_white_space(s[s.len() - 2]) {
            assert(s.drop_last().last() == s[s.len() - 2]);
        }
    }
}

/// Growing the last word grows the joined text.
pub(crate) proof fn lemma_joined_grows(words: Seq<Seq<char>>, c: char)
    requires
        words.len() > 0,
    ensures
        joined(words.drop_last().push(words.last().push(c))) == joined(words).push(c),
{
    let grown = words.drop_last().push(words.last().push(c));
    assert(grown.drop_last() =~= words.drop_last());
    assert(grown.last() == words.last().push(c));
    if words.len() > 1 {
        let j = joined(words.drop_last()) + seq![' '];
        assert(j + words.last().push(c) =~= (j + words.last()).push(c));
    }
}

/// A further word follows a space, unless it is the first.
pub(crate) proof fn lemma_joined_push(words: Seq<Seq<char>>, word: Seq<char>)
    ensures
        joined(words.push(word)) == if words.len() == 0 {
            word
        } else {
            joined(words) + seq![' '] + word
        },
{
    assert(words.push(word).drop_last() =~= words);
}

/// A text that joins words is empty only if there are none.
proof fn lemma_joined_len(words: Seq<Seq<char>>)
    requires
        forall|i: int| 0 <= i < words.len() ==> (#[trigger] words[i]).len() > 0,
    ensures
        words.len() > 0 ==> joined(words).len() > 0,
{
}

/// `text` with its whitespace collapsed.
pub fn collapse_white_space(text: &str) -> (r: String)
    ensures
        r@ == collapsed(text@),
        r@ == joined(words(text@)),
{
    let chars: Vec<char> = chars_of(text);
    let mut out: Vec<char> = Vec::new();
    let mut i: usize = 0;
    while i < chars.len()
        invariant
            i <= chars.len(),
            chars@ == text@,
            out@ == collapsed(chars@.take(i as int)),
        decreases chars.len() - i,
    {
        let c: char = chars[i];
        let ghost now = chars@.take(i as int);
        let ghost next = chars@.take(i + 1);
        proof {
            assert(next.drop_last() =~= now);
            assert(next.last() == c);
            assert(i > 0 ==> next[next.len() - 2] == chars@[i - 1]);
            assert(i > 0 ==> now.last() == chars@[i - 1]);
            lemma_words(now);
            lemma_joined_len(words(now));
        }
        if !char_is_white_space(c) {
            if i > 0 && !char_is_white_space(chars[i - 1]) {
                proof {
                    lemma_joined_grows(words(now), c);
                }
            } else {
                proof {
                    lemma_joined_push(words(now), seq![c]);
                    assert(out@ + seq![' '] + seq![c] =~= out@.push(' ').push(c));
                    assert(seq![c] =~= Seq::<char>::empty().push(c));
                }
                if out.len() > 0 {
                    out.push(' ');
                }
            }
            out.push(c);
        }
        i += 1;
    }
    proof {
        assert(chars@.take(i as int) =~= text@);
    }
    let mut r: String = String::new();
    push_all(&mut r, &out);
    proof {
        assert(Seq::<char>::empty() + out@ =~= out@);
    }
    r
}

/// The key made of an entity and a normalised text.
pub fn join_key(entity: &str, normalised: &str) -> (r: String)
    ensures
        r@ == key_of(entity@, normalised@),
        r@ == entity@ + seq![SEPARATOR] + normalised@,
{
    let mut r: String = String::from_str(entity);
    r.push(SEPARATOR);
    r.append(normalised);
    proof {
        assert(entity@.push(SEPARATOR) =~= entity@ + seq![SEPARATOR]);
    }
    r
}

/// Cache key for a search: entity type plus the normalised query text.
///
/// Normalisation is lowercase and whitespace collapse only. Deliberately not
/// more aggressive: MusicBrainz treats punctuation as significant (`Re:ZERO`,
/// `M!LK`, `!!!` are all real artist names), so stripping it would collapse
/// distinct queries onto one cache entry and serve the wrong answer.
pub fn search_key(entity: &str, text: &str) -> (r: String)
    ensures
        r@ == key_of(entity@, normalised(text@)),
        r@ == entity@ + seq![SEPARATOR] + lowercase(joined(words(text@))),
        is_ascii(collapsed(text@)) ==> r@ == key_of(
            entity@,
            to_ascii_lowercase(collapsed(text@)),
        ),
{
    let collapsed: String = collapse_white_space(text);
    let normalised: String = lower(collapsed.as_str());
    join_key(entity, normalised.as_str())
}

} // verus!
