//! Operations on message text: capitalisation, merging and joining.

use vstd::prelude::*;
use vstd::string::*;

verus! {

/// The uppercase mapping of a character, as `char::to_uppercase` yields it:
/// the characters of the Unicode uppercase form, in order.
pub uninterp spec fn uppercase_of(c: char) -> Seq<char>;

/// Trusted: calls `char::to_uppercase` and collects what it yields.
/// The contract only gives the result the name `uppercase_of`; nothing is
/// claimed about which characters that mapping holds.
#[verifier::external_body]
fn uppercase(c: char) -> (r: String)
    ensures
        r@ == uppercase_of(c),
{
    c.to_uppercase().collect()
}

/// What follows the first character of a text; nothing for the empty text.
pub open spec fn after_first(s: Seq<char>) -> Seq<char> {
    if s.len() == 0 {
        s
    } else {
        s.skip(1)
    }
}

/// A text with its first character replaced by its uppercase mapping.
/// The empty text stays empty; everything after the first character is kept.
pub open spec fn capitalized(s: Seq<char>) -> Seq<char> {
    if s.len() == 0 {
        Seq::empty()
    } else {
        uppercase_of(s[0]) + after_first(s)
    }
}

/// Puts `upper` in the place of the first character of `s`: the result is
/// `upper` followed by what follows the first character of `s`, unchanged.
pub fn with_capital(upper: &str, s: &str) -> (r: String)
    ensures
        r@ == upper@ + after_first(s@),
{
    let n: usize = s.unicode_len();
    let mut out = upper.to_owned();
    if n > 0 {
        out.append(s.substring_char(1, n));
        proof {
            assert(s@.subrange(1, n as int) =~= s@.skip(1));
        }
    } else {
        proof {
            assert(out@ =~= upper@ + after_first(s@));
        }
    }
    out
}

/// Uppercases the first character of `s` and leaves the remainder unchanged.
pub fn capitalize(s: &str) -> (r: String)
    ensures
        r@ == capitalized(s@),
{
    if s.unicode_len() == 0 {
        return String::new();
    }
    let upper = uppercase(s.get_char(0));
    with_capital(upper.as_str(), s)
}

/// The separator written between two merged messages.
pub open spec fn merge_separator() -> Seq<char> {
    seq!['.', ' ']
}

/// Two messages merged into one: both capitalised, joined by `". "`.
pub open spec fn merged(summary: Seq<char>, incoming: Seq<char>) -> Seq<char> {
    capitalized(summary) + merge_separator() + capitalized(incoming)
}

/// Merges `incoming` into the running `summary`.
pub fn merge_messages(summary: &str, incoming: &str) -> (r: String)
    ensures
        r@ == merged(summary@, incoming@),
{
    let mut out = capitalize(summary);
    let tail = capitalize(incoming);
    proof {
        reveal_strlit(". ");
        assert(". "@ =~= merge_separator());
    }
    out.append(". ");
    out.append(tail.as_str());
    out
}

/// Words joined by single spaces, in order.
pub open spec fn joined(words: Seq<Seq<char>>) -> Seq<char>
    decreases words.len(),
{
    if words.len() == 0 {
        Seq::empty()
    } else if words.len() == 1 {
        words[0]
    } else {
        joined(words.drop_last()) + seq![' '] + words.last()
    }
}

/// The texts of a sequence of strings.
pub open spec fn texts(words: Seq<String>) -> Seq<Seq<char>> {
    Seq::new(words.len(), |i: int| words[i]@)
}

/// Joins `words` with a single space between neighbours.
pub fn join_words(words: &Vec<String>) -> (r: String)
    ensures
        r@ == joined(texts(words@)),
{
    let mut out = String::new();
    let mut i: usize = 0;
    while i < words.len()
        invariant
            i <= words.len(),
            out@ == joined(texts(words@).take(i as int)),
        decreases words.len() - i,
    {
        proof {
            reveal_strlit(" ");
            assert(" "@ =~= seq![' ']);
            let next = texts(words@).take(i + 1);
            assert(next.drop_last() =~= texts(words@).take(i as int));
            assert(next.last() == words@[i as int]@);
        }
        if i > 0 {
            out.append(" ");
        }
        out.append(words[i].as_str());
        proof {
            if i == 0 {
                assert(out@ =~= words@[0]@);
            }
        }
        i = i + 1;
    }
    proof {
        assert(texts(words@).take(words.len() as int) =~= texts(words@));
    }
    out
}

} // verus!
