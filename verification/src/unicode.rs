//! What the standard library knows of Unicode: letter case, alphanumeric
//! characters and the quoted form of a text.

use crate::text::chars_of;
use vstd::prelude::*;

verus! {

/// The text that `str::to_lowercase` gives.
pub uninterp spec fn lower_of(s: Seq<char>) -> Seq<char>;

/// The text that `str::to_uppercase` gives.
pub uninterp spec fn upper_of(s: Seq<char>) -> Seq<char>;

/// Whether a character is alphanumeric in the sense of `char::is_alphanumeric`.
pub uninterp spec fn alnum(c: char) -> bool;

/// The text that `Debug` gives for a text: quoted, with escapes.
pub uninterp spec fn quoted_of(s: Seq<char>) -> Seq<char>;

/// Whether a character beyond ASCII is in the class `\w` of the `regex` crate.
pub uninterp spec fn wide_word(c: char) -> bool;

/// A letter, a digit or an underscore of ASCII.
pub open spec fn ascii_word(c: char) -> bool {
    '0' <= c <= '9' || 'a' <= c <= 'z' || 'A' <= c <= 'Z' || c == '_'
}

/// Whether a character is a word character.
pub open spec fn word_char(c: char) -> bool {
    if (c as u32) < 128 {
        ascii_word(c)
    } else {
        wide_word(c)
    }
}

/// Every character is a word character, and there is one.
pub open spec fn is_word(s: Seq<char>) -> bool {
    s.len() > 0 && forall|i: int| 0 <= i < s.len() ==> word_char(#[trigger] s[i])
}

/// The lower-case letter of an ASCII letter; any other character is left alone.
pub open spec fn ascii_lower(c: char) -> char {
    if 'A' <= c <= 'Z' {
        (c as u32 + 32) as char
    } else {
        c
    }
}

/// The upper-case letter of an ASCII letter; any other character is left alone.
pub open spec fn ascii_upper(c: char) -> char {
    if 'a' <= c <= 'z' {
        (c as u32 - 32) as char
    } else {
        c
    }
}

/// Every character is an ASCII character.
pub open spec fn all_ascii(s: Seq<char>) -> bool {
    forall|i: int| 0 <= i < s.len() ==> (#[trigger] s[i] as u32) < 128
}

/// `str::to_lowercase`. The result is [`lower_of`]; an ASCII text is lowered
/// letter by letter.
#[verifier::external_body]
pub(crate) fn to_lowercase(s: &str) -> (r: String)
    ensures
        r@ == lower_of(s@),
        all_ascii(s@) ==> r@ == s@.map_values(|c: char| ascii_lower(c)),
{
    s.to_lowercase()
}

/// `str::to_uppercase`. The result is [`upper_of`]; an ASCII text is raised
/// letter by letter.
#[verifier::external_body]
pub(crate) fn to_uppercase(s: &str) -> (r: String)
    ensures
        r@ == upper_of(s@),
        all_ascii(s@) ==> r@ == s@.map_values(|c: char| ascii_upper(c)),
{
    s.to_uppercase()
}

/// An ASCII letter or digit.
pub open spec fn ascii_alnum(c: char) -> bool {
    '0' <= c <= '9' || 'a' <= c <= 'z' || 'A' <= c <= 'Z'
}

/// `char::is_alphanumeric`. The answer is [`alnum`]; of the ASCII characters,
/// the letters and digits are alphanumeric and no other.
#[verifier::external_body]
pub(crate) fn is_alphanumeric(c: char) -> (r: bool)
    ensures
        r == alnum(c),
        (c as u32) < 128 ==> r == ascii_alnum(c),
{
    c.is_alphanumeric()
}

/// The `Debug` form of a text. The result is [`quoted_of`].
#[verifier::external_body]
pub(crate) fn quote(s: &str) -> (r: String)
    ensures
        r@ == quoted_of(s@),
{
    format!("{:?}", s)
}

/// `regex::Regex::is_match` with the pattern `\w`, on each character: of the ASCII
/// characters, the letters, the digits and the underscore match and no other, and
/// of the rest those of [`wide_word`].
#[verifier::external_body]
pub(crate) fn word_flags(s: &str) -> (r: Vec<bool>)
    ensures
        r@.len() == s@.len(),
        forall|i: int|
            0 <= i < r@.len() ==> #[trigger] r@[i] == (if (s@[i] as u32) < 128 {
                ascii_word(s@[i])
            } else {
                wide_word(s@[i])
            }),
{
    let word = regex::Regex::new(r"\w").unwrap();
    s.chars().map(|c| word.is_match(c.encode_utf8(&mut [0; 4]))).collect()
}

/// A text with its ASCII letters in lower case.
pub open spec fn ascii_lowered(s: Seq<char>) -> Seq<char> {
    s.map_values(|c: char| ascii_lower(c))
}

/// The lower-case letter of an ASCII letter.
pub fn lower_char(c: char) -> (r: char)
    ensures
        r == ascii_lower(c),
{
    if 'A' <= c && c <= 'Z' {
        let n: u8 = c as u8;
        (n + 32) as char
    } else {
        c
    }
}

/// Whether two texts are the same but for the case of ASCII letters.
pub fn same_but_case(a: &str, b: &str) -> (r: bool)
    ensures
        r == (ascii_lowered(a@) == ascii_lowered(b@)),
{
    let x = chars_of(a);
    let y = chars_of(b);
    if x.len() != y.len() {
        proof {
            assert(ascii_lowered(a@).len() != ascii_lowered(b@).len());
        }
        return false;
    }
    let mut i: usize = 0;
    while i < x.len()
        invariant
            i <= x.len(),
            x@ == a@,
            y@ == b@,
            x@.len() == y@.len(),
            forall|k: int| 0 <= k < i ==> ascii_lower(#[trigger] x@[k]) == ascii_lower(y@[k]),
        decreases x.len() - i,
    {
        if lower_char(x[i]) != lower_char(y[i]) {
            proof {
                assert(ascii_lowered(a@)[i as int] != ascii_lowered(b@)[i as int]);
            }
            return false;
        }
        i = i + 1;
    }
    proof {
        assert(ascii_lowered(a@) =~= ascii_lowered(b@));
    }
    true
}

} // verus!
