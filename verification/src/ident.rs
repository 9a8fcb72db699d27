//! Identifier case conversion: `ShowTodo` becomes `show_todo`.
use crate::text::push_char;
use vstd::prelude::*;

verus! {

/// Whether a character beyond ASCII has the Unicode property Uppercase, as
/// `char::is_uppercase` reports it.
pub uninterp spec fn unicode_uppercase(c: char) -> bool;

/// The Unicode lowercase mapping of a character beyond ASCII, as `char::to_lowercase` yields
/// it.
pub uninterp spec fn unicode_lowercase(c: char) -> Seq<char>;

/// The characters that a lowercase mapping has yet to yield.
pub uninterp spec fn pending(mapping: core::char::ToLowercase) -> Seq<char>;

/// The iterator over the lowercase mapping of a character.
#[verifier::external_type_specification]
#[verifier::external_body]
pub struct ExToLowercase(core::char::ToLowercase);

/// `c` with the ASCII letters `A` to `Z` mapped to `a` to `z`, every other character unchanged.
pub open spec fn ascii_lower(c: char) -> char {
    if 'A' <= c && c <= 'Z' {
        ((c as u8) + 32) as char
    } else {
        c
    }
}

/// Whether a character is uppercase: among the ASCII characters the letters `A` to `Z`, beyond
/// them the characters with the Unicode property Uppercase.
pub open spec fn is_upper(c: char) -> bool {
    if (c as u32) < 128 {
        'A' <= c && c <= 'Z'
    } else {
        unicode_uppercase(c)
    }
}

/// The lowercase mapping of a character: for an ASCII character its ASCII lower case alone,
/// beyond ASCII the Unicode lowercase mapping.
pub open spec fn lowercase(c: char) -> Seq<char> {
    if (c as u32) < 128 {
        seq![ascii_lower(c)]
    } else {
        unicode_lowercase(c)
    }
}

/// The lowercase form of a character, cut to its first character.
pub open spec fn lower_head(c: char) -> char {
    lowercase(c)[0]
}

/// What one character after the first contributes to the snake-case form.
pub open spec fn snake_piece(c: char) -> Seq<char> {
    if is_upper(c) {
        seq!['_', lower_head(c)]
    } else {
        seq![c]
    }
}

/// The snake-case form of an identifier: the first character in ASCII lower case, and each later
/// uppercase character replaced by an underscore and its lowercase form.
pub open spec fn snake_case(s: Seq<char>) -> Seq<char>
    decreases s.len(),
{
    if s.len() == 0 {
        Seq::empty()
    } else if s.len() == 1 {
        seq![ascii_lower(s[0])]
    } else {
        snake_case(s.drop_last()) + snake_piece(s.last())
    }
}

/// The character with an ASCII letter `A` to `Z` mapped to `a` to `z`.
pub(crate) fn to_ascii_lowercase(c: char) -> (r: char)
    ensures
        r == ascii_lower(c),
{
    if 'A' <= c && c <= 'Z' {
        ((c as u8) + 32) as char
    } else {
        c
    }
}

/// `char::is_uppercase`: whether the character has the Unicode property Uppercase. Among
/// the ASCII characters exactly the letters `A` to `Z` have it; beyond ASCII the answer is
/// taken on trust, under the name `unicode_uppercase`.
#[verifier::external_body]
fn char_is_uppercase(c: char) -> (b: bool)
    ensures
        b == if (c as u32) < 128 {
            'A' <= c && c <= 'Z'
        } else {
            unicode_uppercase(c)
        },
{
    c.is_uppercase()
}

/// `char::to_lowercase`: the iterator over the lowercase mapping of the character, which holds
/// one character or more. An ASCII letter `A` to `Z` maps to the matching letter `a` to `z`
/// alone and every other ASCII character to itself; beyond ASCII the mapping is taken on
/// trust, under the name `unicode_lowercase`.
#[verifier::external_body]
fn to_lowercase(c: char) -> (mapping: core::char::ToLowercase)
    ensures
        pending(mapping) == if (c as u32) < 128 {
            seq![ascii_lower(c)]
        } else {
            unicode_lowercase(c)
        },
        pending(mapping).len() >= 1,
{
    c.to_lowercase()
}

/// `Iterator::next` on a lowercase mapping: yields the first of the characters that are
/// pending and leaves the rest, or nothing where none is pending.
#[verifier::external_body]
fn next_lowercase(mapping: &mut core::char::ToLowercase) -> (r: Option<char>)
    ensures
        match r {
            Some(c) => {
                &&& pending(*old(mapping)).len() > 0
                &&& c == pending(*old(mapping))[0]
                &&& pending(*final(mapping)) == pending(*old(mapping)).drop_first()
            },
            None => pending(*old(mapping)).len() == 0 && pending(*final(mapping)).len() == 0,
        },
{
    mapping.next()
}

/// The first character of the lowercase mapping of `c`.
fn to_lowercase_head(c: char) -> (r: char)
    ensures
        r == lower_head(c),
        lowercase(c).len() >= 1,
{
    let mut mapping = to_lowercase(c);
    next_lowercase(&mut mapping).unwrap()
}

/// Converts an identifier written in capitalized words to lower case with underscores.
pub fn pascal_to_snake(input: &str) -> (result: String)
    ensures
        result@ == snake_case(input@),
{
    let mut result = String::new();
    let mut first = true;
    for ch in it: input.chars()
        invariant
            it.seq() == input@,
            first == (it.index() == 0),
            result@ == snake_case(it.seq().take(it.index() as int)),
    {
        let ghost before = it.seq().take(it.index() as int);
        let ghost after = it.seq().take(it.index() + 1);
        proof {
            assert(after.drop_last() == before);
            assert(after.last() == ch);
        }
        if first {
            first = false;
            let low = to_ascii_lowercase(ch);
            push_char(&mut result, low);
            proof {
                assert(after =~= seq![ch]);
            }
        } else if char_is_uppercase(ch) {
            let low = to_lowercase_head(ch);
            push_char(&mut result, '_');
            push_char(&mut result, low);
            proof {
                assert(result@ =~= snake_case(before) + snake_piece(ch));
            }
        } else {
            push_char(&mut result, ch);
            proof {
                assert(result@ =~= snake_case(before) + snake_piece(ch));
            }
        }
    }
    proof {
        assert(input@.take(input@.len() as int) == input@);
    }
    result
}

/// The snake-case form is empty exactly for the empty identifier, and never shorter than the
/// identifier.
pub proof fn lemma_snake_case_nonempty(s: Seq<char>)
    ensures
        snake_case(s).len() >= s.len(),
        snake_case(s).len() == 0 <==> s.len() == 0,
    decreases s.len(),
{
    if s.len() > 1 {
        lemma_snake_case_nonempty(s.drop_last());
    }
}

} // verus!
