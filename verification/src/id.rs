//! Short random ids: what they look like and where they come from.

use vstd::prelude::*;
use vstd::string::StrSliceExecFns;

verus! {

/// The number of characters in a generated id.
pub const ID_LENGTH: usize = 5;

/// The characters an id is made of: ASCII letters and digits, `_` and `-`.
/// Each can stand in a URL path segment as it is.
pub open spec fn is_id_char(c: char) -> bool {
    ||| 'a' <= c <= 'z'
    ||| 'A' <= c <= 'Z'
    ||| '0' <= c <= '9'
    ||| c == '_'
    ||| c == '-'
}

/// `text` has `length` characters, each of them an id character.
pub open spec fn is_id_of_length(text: Seq<char>, length: nat) -> bool {
    &&& text.len() == length
    &&& forall|i: int| 0 <= i < text.len() ==> is_id_char(#[trigger] text[i])
}

/// `text` has the shape of a generated id.
pub open spec fn is_id(text: Seq<char>) -> bool {
    is_id_of_length(text, ID_LENGTH as nat)
}

/// Draws `size` characters at random from nanoid's URL-safe alphabet.
///
/// Trusted: the body calls `nanoid::format` with `nanoid::rngs::default` as
/// the source of random bytes and `nanoid::alphabet::SAFE` as the alphabet.
/// That alphabet holds the 64 characters of [`is_id_char`], and `format`
/// returns once it has pushed `size` of them, so the contract claims the
/// length and the alphabet and nothing about which characters come out. The
/// bounds keep away the two sizes on which `format` does not return a value:
/// zero, where it never stops asking for bytes, and a size whose eightfold
/// overflows. The bytes come from the operating system's random source, which
/// is taken to be there.
#[verifier::external_body]
fn random_id(size: usize) -> (id: String)
    requires
        0 < size,
        8 * size <= usize::MAX,
    ensures
        is_id_of_length(id@, size as nat),
{
    nanoid::format(nanoid::rngs::default, &nanoid::alphabet::SAFE, size)
}

/// Whether a character may stand in an id.
pub fn is_id_character(c: char) -> (yes: bool)
    ensures
        yes == is_id_char(c),
{
    ('a' <= c && c <= 'z') || ('A' <= c && c <= 'Z') || ('0' <= c && c <= '9') || c == '_'
        || c == '-'
}

/// Whether `text` has the shape of a generated id: [`ID_LENGTH`] characters,
/// all of them id characters.
pub fn is_valid_id(text: &str) -> (yes: bool)
    ensures
        yes == is_id(text@),
{
    if text.unicode_len() != ID_LENGTH {
        return false;
    }
    let mut i: usize = 0;
    while i < ID_LENGTH
        invariant
            i <= ID_LENGTH,
            text@.len() == ID_LENGTH,
            forall|j: int| 0 <= j < i ==> is_id_char(#[trigger] text@[j]),
        decreases ID_LENGTH - i,
    {
        if !is_id_character(text.get_char(i)) {
            return false;
        }
        i = i + 1;
    }
    true
}

/// A fresh candidate id: [`ID_LENGTH`] random id characters.
///
/// Nothing makes two calls differ, and nothing makes the id differ from those
/// already stored: the table decides whether a candidate is free.
pub fn generate_id() -> (id: String)
    ensures
        is_id(id@),
{
    random_id(ID_LENGTH)
}

} // verus!
