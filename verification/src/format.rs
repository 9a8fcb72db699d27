//! What a format string prints, and that the format string of a template prints the rendered
//! template.
use crate::template::{
    braces_doubled, filled, filled_at, format_at, format_string, lemma_count_take,
    placeholder_count, rendered, Piece,
};
use crate::text::join;
use vstd::prelude::*;

verus! {

/// What a formatter prints for a format string made of text, doubled braces and `{}` slots,
/// given one argument for each slot; nothing if the string is not of this form or the
/// arguments are not one for each slot.
pub open spec fn formatted(fmt: Seq<char>, args: Seq<Seq<char>>) -> Option<Seq<char>>
    decreases fmt.len(),
{
    if fmt.len() == 0 {
        if args.len() == 0 {
            Some(Seq::empty())
        } else {
            None
        }
    } else if fmt[0] == '{' {
        if fmt.len() >= 2 && fmt[1] == '{' {
            match formatted(fmt.skip(2), args) {
                Some(rest) => Some(seq!['{'] + rest),
                None => None,
            }
        } else if fmt.len() >= 2 && fmt[1] == '}' && args.len() > 0 {
            match formatted(fmt.skip(2), args.skip(1)) {
                Some(rest) => Some(args[0] + rest),
                None => None,
            }
        } else {
            None
        }
    } else if fmt[0] == '}' {
        if fmt.len() >= 2 && fmt[1] == '}' {
            match formatted(fmt.skip(2), args) {
                Some(rest) => Some(seq!['}'] + rest),
                None => None,
            }
        } else {
            None
        }
    } else {
        match formatted(fmt.skip(1), args) {
            Some(rest) => Some(seq![fmt[0]] + rest),
            None => None,
        }
    }
}

/// Two format strings in a row print what each prints, in a row.
pub proof fn lemma_formatted_concat(
    a: Seq<char>,
    x: Seq<Seq<char>>,
    b: Seq<char>,
    y: Seq<Seq<char>>,
)
    requires
        formatted(a, x) is Some,
        formatted(b, y) is Some,
    ensures
        formatted(a + b, x + y) == Some(formatted(a, x)->0 + formatted(b, y)->0),
    decreases a.len(),
{
    if a.len() == 0 {
        assert(a + b =~= b);
        assert(x + y =~= y);
        assert(formatted(a, x)->0 + formatted(b, y)->0 =~= formatted(b, y)->0);
    } else {
        let ab = a + b;
        assert(ab[0] == a[0]);
        if a[0] == '{' || a[0] == '}' {
            assert(a.len() >= 2);
            assert(ab[1] == a[1]);
            assert(ab.skip(2) =~= a.skip(2) + b);
            if a[0] == '{' && a[1] == '}' {
                assert((x + y)[0] == x[0]);
                assert((x + y).skip(1) =~= x.skip(1) + y);
                lemma_formatted_concat(a.skip(2), x.skip(1), b, y);
                let rest = formatted(a.skip(2), x.skip(1))->0;
                assert(x[0] + (rest + formatted(b, y)->0) =~= (x[0] + rest) + formatted(b, y)->0);
            } else {
                lemma_formatted_concat(a.skip(2), x, b, y);
                let rest = formatted(a.skip(2), x)->0;
                assert(seq![a[0]] + (rest + formatted(b, y)->0) =~= (seq![a[0]] + rest)
                    + formatted(b, y)->0);
            }
        } else {
            assert(ab.skip(1) =~= a.skip(1) + b);
            lemma_formatted_concat(a.skip(1), x, b, y);
            let rest = formatted(a.skip(1), x)->0;
            assert(seq![a[0]] + (rest + formatted(b, y)->0) =~= (seq![a[0]] + rest) + formatted(
                b,
                y,
            )->0);
        }
    }
}

/// A text with its braces doubled prints as the text itself.
pub proof fn lemma_doubled_prints_text(text: Seq<char>)
    ensures
        formatted(braces_doubled(text), Seq::empty()) == Some(text),
    decreases text.len(),
{
    let none = Seq::<Seq<char>>::empty();
    if text.len() > 0 {
        let c = text.last();
        let init = text.drop_last();
        lemma_doubled_prints_text(init);
        let tail = if c == '{' || c == '}' {
            seq![c, c]
        } else {
            seq![c]
        };
        assert(formatted(tail, none) == Some(seq![c])) by {
            reveal_with_fuel(formatted, 3);
            if c == '{' || c == '}' {
                assert(tail.skip(2) =~= Seq::<char>::empty());
                assert(seq![c] + Seq::<char>::empty() =~= seq![c]);
            } else {
                assert(tail.skip(1) =~= Seq::<char>::empty());
                assert(seq![c] + Seq::<char>::empty() =~= seq![c]);
            }
        }
        lemma_formatted_concat(braces_doubled(init), none, tail, none);
        assert(none + none =~= none);
        assert(init + seq![c] =~= text);
    }
}

/// What one piece of a template prints, given its value if it is a placeholder.
pub proof fn lemma_piece_prints(pieces: Seq<Piece>, values: Seq<Seq<char>>, i: int)
    requires
        0 <= i < pieces.len(),
        values.len() == placeholder_count(pieces),
    ensures
        formatted(
            format_at(pieces[i]),
            if pieces[i] is Placeholder {
                seq![filled_at(pieces, values, i)]
            } else {
                Seq::empty()
            },
        ) == Some(filled_at(pieces, values, i)),
{
    match pieces[i] {
        Piece::Literal(text) => {
            lemma_doubled_prints_text(text);
        },
        Piece::Placeholder(_) => {
            let v = filled_at(pieces, values, i);
            let fmt = seq!['{', '}'];
            reveal_with_fuel(formatted, 2);
            assert(fmt.skip(2) =~= Seq::<char>::empty());
            assert(seq![v].skip(1) =~= Seq::<Seq<char>>::empty());
            assert(v + Seq::<char>::empty() =~= v);
        },
    }
}

/// The format string of the first `n` pieces of a template prints, with the values of their
/// placeholders as arguments, what these pieces render to.
pub proof fn lemma_format_prefix(pieces: Seq<Piece>, values: Seq<Seq<char>>, n: int)
    requires
        0 <= n <= pieces.len(),
        values.len() == placeholder_count(pieces),
    ensures
        formatted(
            join(pieces.map_values(|p: Piece| format_at(p)).take(n), '/'),
            values.take(placeholder_count(pieces.take(n)) as int),
        ) == Some(join(filled(pieces, values).take(n), '/')),
    decreases n,
{
    let formats = pieces.map_values(|p: Piece| format_at(p));
    let parts = filled(pieces, values);
    lemma_count_take(pieces, n);
    if n == 0 {
        assert(values.take(0) =~= Seq::<Seq<char>>::empty());
    } else {
        let i = n - 1;
        lemma_count_take(pieces, i);
        lemma_piece_prints(pieces, values, i);
        assert(pieces.take(n).drop_last() =~= pieces.take(i));
        assert(formats.take(n).drop_last() =~= formats.take(i));
        assert(parts.take(n).drop_last() =~= parts.take(i));
        let k = placeholder_count(pieces.take(i)) as int;
        let own: Seq<Seq<char>> = if pieces[i] is Placeholder {
            seq![parts[i]]
        } else {
            Seq::empty()
        };
        assert(values.take(placeholder_count(pieces.take(n)) as int) =~= values.take(k) + own);
        if n == 1 {
            assert(values.take(k) =~= Seq::<Seq<char>>::empty());
            assert(values.take(k) + own =~= own);
        } else {
            lemma_format_prefix(pieces, values, i);
            let slash = seq!['/'];
            let none = Seq::<Seq<char>>::empty();
            assert(formatted(slash, none) == Some(slash)) by {
                reveal_with_fuel(formatted, 2);
                assert(slash.skip(1) =~= Seq::<char>::empty());
                assert(slash + Seq::<char>::empty() =~= slash);
            }
            lemma_formatted_concat(join(formats.take(i), '/'), values.take(k), slash, none);
            assert(values.take(k) + none =~= values.take(k));
            lemma_formatted_concat(
                join(formats.take(i), '/') + slash,
                values.take(k),
                formats[i],
                own,
            );
        }
    }
}

/// The format string of a template prints, with the values as arguments, what the template
/// renders to with these values.
pub proof fn lemma_format_renders(pieces: Seq<Piece>, values: Seq<Seq<char>>)
    requires
        values.len() == placeholder_count(pieces),
    ensures
        formatted(format_string(pieces), values) == Some(rendered(pieces, values)),
{
    let n = pieces.len() as int;
    lemma_format_prefix(pieces, values, n);
    assert(pieces.take(n) =~= pieces);
    assert(pieces.map_values(|p: Piece| format_at(p)).take(n) =~= pieces.map_values(
        |p: Piece| format_at(p),
    ));
    assert(filled(pieces, values).take(n) =~= filled(pieces, values));
    assert(values.take(values.len() as int) =~= values);
}

/// The format string of a positional case, with the prefix of its set before it, prints with
/// the values as arguments the prefix and the rendered template: the URL of the instance.
pub proof fn lemma_format_prints_url(
    prefix: Seq<char>,
    pieces: Seq<Piece>,
    values: Seq<Seq<char>>,
)
    requires
        values.len() == placeholder_count(pieces),
    ensures
        formatted(braces_doubled(prefix) + format_string(pieces), values) == Some(
            prefix + rendered(pieces, values),
        ),
{
    let none = Seq::<Seq<char>>::empty();
    lemma_doubled_prints_text(prefix);
    lemma_format_renders(pieces, values);
    lemma_formatted_concat(braces_doubled(prefix), none, format_string(pieces), values);
    assert(none + values =~= values);
}

} // verus!
