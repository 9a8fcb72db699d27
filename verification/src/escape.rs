//! Percent-encoding of text for use in a URL.
use crate::text::push_char;
use vstd::prelude::*;
use vstd::string::to_string_from_display_ensures;
use vstd::utf8::encode_utf8;

verus! {

/// The bytes that stand for themselves: ASCII letters, digits, `-`, `_`, `.` and `~`.
pub open spec fn is_unreserved(b: u8) -> bool {
    ||| 0x61 <= b <= 0x7a
    ||| 0x41 <= b <= 0x5a
    ||| 0x30 <= b <= 0x39
    ||| b == 0x2d
    ||| b == 0x5f
    ||| b == 0x2e
    ||| b == 0x7e
}

/// The upper-case hexadecimal digit for a value below 16.
pub open spec fn hex_digit(n: u8) -> char {
    if n < 10 {
        (0x30 + n) as char
    } else {
        (0x37 + n) as char
    }
}

/// What one byte becomes: itself if unreserved, `+` for a space, else `%` and two hex digits.
pub open spec fn escaped_byte(b: u8) -> Seq<char> {
    if is_unreserved(b) {
        seq![b as char]
    } else if b == 0x20 {
        seq!['+']
    } else {
        seq!['%', hex_digit(b / 16), hex_digit(b % 16)]
    }
}

/// The percent-encoding of a byte string: the encodings of its bytes, in order.
pub open spec fn percent_encoded(bytes: Seq<u8>) -> Seq<char>
    decreases bytes.len(),
{
    if bytes.len() == 0 {
        Seq::empty()
    } else {
        percent_encoded(bytes.drop_last()) + escaped_byte(bytes.last())
    }
}

/// The value of a hexadecimal digit, in either case.
pub open spec fn hex_value(c: char) -> Option<int> {
    if '0' <= c && c <= '9' {
        Some(c as int - 0x30)
    } else if 'A' <= c && c <= 'F' {
        Some(c as int - 0x37)
    } else if 'a' <= c && c <= 'f' {
        Some(c as int - 0x57)
    } else {
        None
    }
}

/// What a query parser reads from a percent-encoded text: `%` and two hexadecimal digits give
/// the byte of that value, `+` gives a space, and any other ASCII character gives itself.
/// Nothing is read from a text that is not of this form.
pub open spec fn percent_decoded(text: Seq<char>) -> Option<Seq<u8>>
    decreases text.len(),
{
    if text.len() == 0 {
        Some(Seq::empty())
    } else if text[0] == '%' {
        if text.len() >= 3 && hex_value(text[1]) is Some && hex_value(text[2]) is Some {
            match percent_decoded(text.skip(3)) {
                Some(rest) => Some(
                    seq![(hex_value(text[1])->0 * 16 + hex_value(text[2])->0) as u8] + rest,
                ),
                None => None,
            }
        } else {
            None
        }
    } else if (text[0] as u32) < 128 {
        match percent_decoded(text.skip(1)) {
            Some(rest) => Some(
                seq![if text[0] == '+' {
                    0x20u8
                } else {
                    text[0] as u8
                }] + rest,
            ),
            None => None,
        }
    } else {
        None
    }
}

/// Two encoded texts in a row are read as what each is read as, in a row.
pub proof fn lemma_decoded_concat(a: Seq<char>, b: Seq<char>)
    requires
        percent_decoded(a) is Some,
        percent_decoded(b) is Some,
    ensures
        percent_decoded(a + b) == Some(percent_decoded(a)->0 + percent_decoded(b)->0),
    decreases a.len(),
{
    let y = percent_decoded(b)->0;
    if a.len() == 0 {
        assert(a + b =~= b);
        assert(Seq::<u8>::empty() + y =~= y);
    } else {
        let ab = a + b;
        assert(ab[0] == a[0]);
        if a[0] == '%' {
            assert(ab[1] == a[1] && ab[2] == a[2]);
            assert(ab.skip(3) =~= a.skip(3) + b);
            lemma_decoded_concat(a.skip(3), b);
            let head = seq![(hex_value(a[1])->0 * 16 + hex_value(a[2])->0) as u8];
            let rest = percent_decoded(a.skip(3))->0;
            assert(head + (rest + y) =~= (head + rest) + y);
        } else {
            assert(ab.skip(1) =~= a.skip(1) + b);
            lemma_decoded_concat(a.skip(1), b);
            let head = seq![if a[0] == '+' {
                0x20u8
            } else {
                a[0] as u8
            }];
            let rest = percent_decoded(a.skip(1))->0;
            assert(head + (rest + y) =~= (head + rest) + y);
        }
    }
}

/// The encoding of one byte is read back as that byte.
pub proof fn lemma_byte_round_trip(b: u8)
    ensures
        percent_decoded(escaped_byte(b)) == Some(seq![b]),
{
    let text = escaped_byte(b);
    reveal_with_fuel(percent_decoded, 2);
    if is_unreserved(b) || b == 0x20 {
        assert(text.skip(1) =~= Seq::<char>::empty());
        assert(seq![b] + Seq::<u8>::empty() =~= seq![b]);
    } else {
        let high = b / 16;
        let low = b % 16;
        assert(hex_value(hex_digit(high)) == Some(high as int));
        assert(hex_value(hex_digit(low)) == Some(low as int));
        assert(high as int * 16 + low as int == b as int);
        assert(text.skip(3) =~= Seq::<char>::empty());
        assert(seq![b] + Seq::<u8>::empty() =~= seq![b]);
    }
}

/// Round trip: a percent-encoded byte string is read back as the bytes that were encoded.
pub proof fn lemma_percent_round_trip(bytes: Seq<u8>)
    ensures
        percent_decoded(percent_encoded(bytes)) == Some(bytes),
    decreases bytes.len(),
{
    if bytes.len() > 0 {
        lemma_percent_round_trip(bytes.drop_last());
        lemma_byte_round_trip(bytes.last());
        lemma_decoded_concat(percent_encoded(bytes.drop_last()), escaped_byte(bytes.last()));
        assert(bytes.drop_last() + seq![bytes.last()] =~= bytes);
    }
}

fn hex_char(n: u8) -> (c: char)
    requires
        n < 16,
    ensures
        c == hex_digit(n),
{
    if n < 10 {
        (0x30 + n) as char
    } else {
        (0x37 + n) as char
    }
}

/// Percent-encodes the UTF-8 bytes of `s`.
pub fn percent_encode(s: &str) -> (r: String)
    ensures
        r@ == percent_encoded(encode_utf8(s@)),
{
    let bytes = s.as_bytes();
    let mut r = String::new();
    let mut i: usize = 0;
    while i < bytes.len()
        invariant
            i <= bytes.len(),
            bytes@ == encode_utf8(s@),
            r@ == percent_encoded(bytes@.take(i as int)),
        decreases bytes.len() - i,
    {
        let b: u8 = bytes[i];
        proof {
            assert(bytes@.take(i + 1).drop_last() == bytes@.take(i as int));
            assert(bytes@.take(i + 1).last() == b);
        }
        if (0x61 <= b && b <= 0x7a) || (0x41 <= b && b <= 0x5a) || (0x30 <= b && b <= 0x39)
            || b == 0x2d || b == 0x5f || b == 0x2e || b == 0x7e {
            push_char(&mut r, b as char);
        } else if b == 0x20 {
            push_char(&mut r, '+');
        } else {
            push_char(&mut r, '%');
            push_char(&mut r, hex_char(b / 16));
            push_char(&mut r, hex_char(b % 16));
        }
        assert(r@ =~= percent_encoded(bytes@.take(i as int)) + escaped_byte(b));
        i += 1;
    }
    proof {
        assert(bytes@.take(bytes@.len() as int) == bytes@);
    }
    r
}

/// Percent-encodes the text that `s` displays as.
pub fn urlencode<T: core::fmt::Display>(s: T) -> (r: String)
    ensures
        exists|t: String| #[trigger]
            to_string_from_display_ensures::<T>(&s, t) && r@ == percent_encoded(encode_utf8(t@)),
{
    let t = s.to_string();
    percent_encode(t.as_str())
}

} // verus!
