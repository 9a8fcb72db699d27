//! Path templates: a path cut at its slashes into literal segments and placeholders.
use crate::text::{join, lemma_join_step, push_char, same_text, strings};
use vstd::prelude::*;
use vstd::string::StrSliceExecFns;
use vstd::string::StringExecFns;

verus! {

/// One segment of a path template.
#[derive(Debug, Clone, PartialEq, Eq)]
pub enum Token {
    /// Text that stands for itself.
    Literal(String),
    /// A slot for a value, with the name written in the template (possibly empty).
    Placeholder(String),
}

/// The mathematical value of a `Token`.
pub enum Piece {
    Literal(Seq<char>),
    Placeholder(Seq<char>),
}

impl View for Token {
    type V = Piece;

    open spec fn view(&self) -> Piece {
        match self {
            Token::Literal(text) => Piece::Literal(text@),
            Token::Placeholder(name) => Piece::Placeholder(name@),
        }
    }
}

/// A parsed path template: its segments in order, to be joined by `/`.
#[derive(Debug, Clone, PartialEq, Eq)]
pub struct PathTemplate {
    pub tokens: Vec<Token>,
}

impl View for PathTemplate {
    type V = Seq<Piece>;

    open spec fn view(&self) -> Seq<Piece> {
        self.tokens@.map_values(|t: Token| t@)
    }
}

/// Why a template could not be rendered: it has `expected` placeholders and got `given` values.
#[derive(Debug, Clone, Copy, PartialEq, Eq)]
pub struct RenderError {
    pub expected: usize,
    pub given: usize,
}

/// The segments of `s` between its slashes; a text without a slash is one segment.
pub open spec fn split(s: Seq<char>) -> Seq<Seq<char>>
    decreases s.len(),
{
    if s.len() == 0 {
        seq![Seq::empty()]
    } else {
        let before = split(s.drop_last());
        if s.last() == '/' {
            before.push(Seq::empty())
        } else {
            before.drop_last().push(before.last().push(s.last()))
        }
    }
}

/// Whether a segment is written as `:name`.
pub open spec fn is_marked(seg: Seq<char>) -> bool {
    seg.len() >= 1 && seg[0] == ':'
}

/// Whether a segment is written as `{name}`.
pub open spec fn is_braced(seg: Seq<char>) -> bool {
    seg.len() >= 2 && seg[0] == '{' && seg.last() == '}'
}

/// What a segment means: `:name` and `{name}` are placeholders, anything else is literal.
pub open spec fn classify(seg: Seq<char>) -> Piece {
    if is_marked(seg) {
        Piece::Placeholder(seg.skip(1))
    } else if is_braced(seg) {
        Piece::Placeholder(seg.subrange(1, seg.len() - 1))
    } else {
        Piece::Literal(seg)
    }
}

/// The pieces that a template text parses to.
pub open spec fn parsed(s: Seq<char>) -> Seq<Piece> {
    split(s).map_values(|seg: Seq<char>| classify(seg))
}

/// How many of the pieces are placeholders.
pub open spec fn placeholder_count(pieces: Seq<Piece>) -> nat
    decreases pieces.len(),
{
    if pieces.len() == 0 {
        0
    } else {
        placeholder_count(pieces.drop_last()) + if pieces.last() is Placeholder {
            1nat
        } else {
            0nat
        }
    }
}

/// The text that stands at position `i` once the placeholders are filled: a literal's own text,
/// or for a placeholder the value whose index is the number of placeholders before it.
pub open spec fn filled_at(pieces: Seq<Piece>, values: Seq<Seq<char>>, i: int) -> Seq<char> {
    match pieces[i] {
        Piece::Literal(text) => text,
        Piece::Placeholder(_) => values[placeholder_count(pieces.take(i)) as int],
    }
}

/// The segments of the template once every placeholder is filled.
pub open spec fn filled(pieces: Seq<Piece>, values: Seq<Seq<char>>) -> Seq<Seq<char>> {
    Seq::new(pieces.len(), |i: int| filled_at(pieces, values, i))
}

/// The template with every placeholder replaced by its value, in order.
pub open spec fn rendered(pieces: Seq<Piece>, values: Seq<Seq<char>>) -> Seq<char> {
    join(filled(pieces, values), '/')
}

/// The name under which the router learns of a placeholder: the name written in the template,
/// or `id` where the template wrote none or the generic `param`.
pub open spec fn param_name(name: Seq<char>) -> Seq<char> {
    if name.len() == 0 || name == "param"@ {
        "id"@
    } else {
        name
    }
}

/// A piece as the router's pattern writes it: a placeholder becomes `{name}`.
pub open spec fn pattern_at(piece: Piece) -> Seq<char> {
    match piece {
        Piece::Literal(text) => text,
        Piece::Placeholder(name) => seq!['{'] + param_name(name) + seq!['}'],
    }
}

/// The path pattern that stands in the dispatch table.
pub open spec fn pattern(pieces: Seq<Piece>) -> Seq<char> {
    join(pieces.map_values(|p: Piece| pattern_at(p)), '/')
}

/// A text with every brace doubled, so that a formatter prints the text itself.
pub open spec fn braces_doubled(text: Seq<char>) -> Seq<char>
    decreases text.len(),
{
    if text.len() == 0 {
        Seq::empty()
    } else {
        let c = text.last();
        braces_doubled(text.drop_last()) + if c == '{' || c == '}' {
            seq![c, c]
        } else {
            seq![c]
        }
    }
}

/// A piece as a format string writes it: a placeholder becomes `{}`.
pub open spec fn format_at(piece: Piece) -> Seq<char> {
    match piece {
        Piece::Literal(text) => braces_doubled(text),
        Piece::Placeholder(_) => seq!['{', '}'],
    }
}

/// The format string whose arguments are the placeholder values, in order.
pub open spec fn format_string(pieces: Seq<Piece>) -> Seq<char> {
    join(pieces.map_values(|p: Piece| format_at(p)), '/')
}

impl PathTemplate {
    /// Parses a template text. Segments are cut at `/`; a segment `:name` or `{name}` becomes a
    /// placeholder that keeps its name, any other segment a literal.
    pub fn parse(template: &str) -> (t: PathTemplate)
        ensures
            t@ == parsed(template@),
    {
        let mut tokens: Vec<Token> = Vec::new();
        let mut cur = String::new();
        for c in it: template.chars()
            invariant
                it.seq() == template@,
                tokens@.map_values(|t: Token| t@) == parsed(
                    it.seq().take(it.index() as int),
                ).drop_last(),
                cur@ == split(it.seq().take(it.index() as int)).last(),
        {
            let ghost before = it.seq().take(it.index() as int);
            let ghost after = it.seq().take(it.index() + 1);
            proof {
                assert(after.drop_last() == before);
                assert(after.last() == c);
                lemma_split_len(before);
            }
            if c == '/' {
                let ghost done = tokens@.map_values(|t: Token| t@);
                let token = classify_segment(cur);
                tokens.push(token);
                cur = String::new();
                proof {
                    assert(split(after) == split(before).push(Seq::empty()));
                    assert(parsed(after).drop_last() =~= parsed(before));
                    assert(parsed(before) =~= parsed(before).drop_last().push(
                        parsed(before).last(),
                    ));
                    assert(tokens@.map_values(|t: Token| t@) =~= done.push(token@));
                }
            } else {
                push_char(&mut cur, c);
                proof {
                    assert(split(after) == split(before).drop_last().push(
                        split(before).last().push(c),
                    ));
                    assert(split(after).drop_last() =~= split(before).drop_last());
                    assert(parsed(after).drop_last() =~= parsed(before).drop_last());
                }
            }
        }
        proof {
            assert(template@.take(template@.len() as int) == template@);
            lemma_split_len(template@);
        }
        let ghost done = tokens@.map_values(|t: Token| t@);
        let token = classify_segment(cur);
        tokens.push(token);
        let t = PathTemplate { tokens };
        proof {
            assert(t@ =~= done.push(token@));
            assert(parsed(template@) =~= parsed(template@).drop_last().push(
                parsed(template@).last(),
            ));
        }
        t
    }

    /// The number of placeholders.
    pub fn placeholders(&self) -> (n: usize)
        ensures
            n == placeholder_count(self@),
    {
        let mut n: usize = 0;
        let mut i: usize = 0;
        while i < self.tokens.len()
            invariant
                i <= self.tokens.len(),
                n <= i,
                n == placeholder_count(self@.take(i as int)),
            decreases self.tokens.len() - i,
        {
            proof {
                assert(self@.take(i + 1).drop_last() == self@.take(i as int));
            }
            match &self.tokens[i] {
                Token::Placeholder(_) => {
                    n += 1;
                },
                Token::Literal(_) => {},
            }
            i += 1;
        }
        proof {
            assert(self@.take(self@.len() as int) == self@);
        }
        n
    }

    /// The path pattern for the dispatch table: literals as they are, each placeholder as
    /// `{name}`, with `id` for a placeholder without a name of its own.
    pub fn to_pattern(&self) -> (r: String)
        ensures
            r@ == pattern(self@),
    {
        let ghost parts = self@.map_values(|p: Piece| pattern_at(p));
        let mut out = String::new();
        let mut i: usize = 0;
        while i < self.tokens.len()
            invariant
                i <= self.tokens.len(),
                parts == self@.map_values(|p: Piece| pattern_at(p)),
                out@ == join(parts.take(i as int), '/'),
            decreases self.tokens.len() - i,
        {
            proof {
                lemma_join_step(parts, '/', i as int);
                assert(self@[i as int] == self.tokens[i as int]@);
            }
            if i > 0 {
                push_char(&mut out, '/');
            }
            match &self.tokens[i] {
                Token::Literal(text) => {
                    out.append(text.as_str());
                },
                Token::Placeholder(name) => {
                    push_char(&mut out, '{');
                    if name.as_str().is_empty() || same_text(name.as_str(), "param") {
                        proof {
                            reveal_strlit("id");
                        }
                        out.append("id");
                    } else {
                        out.append(name.as_str());
                    }
                    push_char(&mut out, '}');
                    assert(out@ =~= (if i == 0 {
                        Seq::<char>::empty()
                    } else {
                        join(parts.take(i as int), '/') + seq!['/']
                    }) + (seq!['{'] + param_name(name@) + seq!['}']));
                },
            }
            i += 1;
        }
        proof {
            assert(parts.take(parts.len() as int) == parts);
        }
        out
    }

    /// The format string that prints the path from the placeholder values: literals with
    /// their braces doubled, each placeholder as `{}`.
    pub fn to_format_string(&self) -> (r: String)
        ensures
            r@ == format_string(self@),
    {
        let ghost parts = self@.map_values(|p: Piece| format_at(p));
        let mut out = String::new();
        let mut i: usize = 0;
        while i < self.tokens.len()
            invariant
                i <= self.tokens.len(),
                parts == self@.map_values(|p: Piece| format_at(p)),
                out@ == join(parts.take(i as int), '/'),
            decreases self.tokens.len() - i,
        {
            proof {
                lemma_join_step(parts, '/', i as int);
                assert(self@[i as int] == self.tokens[i as int]@);
            }
            if i > 0 {
                push_char(&mut out, '/');
            }
            let ghost start = out@;
            match &self.tokens[i] {
                Token::Literal(text) => {
                    let doubled = double_braces(text.as_str());
                    out.append(doubled.as_str());
                },
                Token::Placeholder(_) => {
                    push_char(&mut out, '{');
                    push_char(&mut out, '}');
                    assert(out@ =~= start + seq!['{', '}']);
                },
            }
            i += 1;
        }
        proof {
            assert(parts.take(parts.len() as int) == parts);
        }
        out
    }

    /// Substitutes `values` for the placeholders, in order. Fails exactly when the number of
    /// values is not the number of placeholders.
    pub fn render(&self, values: &Vec<String>) -> (r: Result<String, RenderError>)
        ensures
            values.len() == placeholder_count(self@) ==> r is Ok && r->Ok_0@ == rendered(
                self@,
                strings(values@),
            ),
            values.len() != placeholder_count(self@) ==> r == Err::<String, RenderError>(
                RenderError { expected: placeholder_count(self@) as usize, given: values.len() },
            ),
    {
        let expected = self.placeholders();
        if values.len() != expected {
            return Err(RenderError { expected, given: values.len() });
        }
        let ghost pieces = self@;
        let ghost vals = strings(values@);
        let ghost parts = filled(pieces, vals);
        let mut out = String::new();
        let mut k: usize = 0;
        let mut i: usize = 0;
        while i < self.tokens.len()
            invariant
                i <= self.tokens.len(),
                pieces == self@,
                vals == strings(values@),
                parts == filled(pieces, vals),
                values.len() == placeholder_count(pieces),
                k == placeholder_count(pieces.take(i as int)),
                out@ == join(parts.take(i as int), '/'),
            decreases self.tokens.len() - i,
        {
            let ghost before = out@;
            proof {
                assert(pieces.take(i + 1).drop_last() == pieces.take(i as int));
                lemma_count_take(pieces, i + 1);
                lemma_join_step(parts, '/', i as int);
                assert(pieces[i as int] == self.tokens[i as int]@);
            }
            if i > 0 {
                push_char(&mut out, '/');
            }
            match &self.tokens[i] {
                Token::Literal(text) => {
                    out.append(text.as_str());
                    assert(parts[i as int] == text@);
                },
                Token::Placeholder(_) => {
                    assert(vals[k as int] == values[k as int]@);
                    assert(parts[i as int] == vals[k as int]);
                    out.append(values[k].as_str());
                    k += 1;
                },
            }
            i += 1;
        }
        proof {
            assert(parts.take(parts.len() as int) == parts);
        }
        Ok(out)
    }
}

/// Doubles every brace of a text, so that a formatter prints the text itself.
pub fn double_braces(text: &str) -> (r: String)
    ensures
        r@ == braces_doubled(text@),
{
    let mut out = String::new();
    for c in it: text.chars()
        invariant
            it.seq() == text@,
            out@ == braces_doubled(it.seq().take(it.index() as int)),
    {
        proof {
            assert(it.seq().take(it.index() + 1).drop_last() == it.seq().take(
                it.index() as int,
            ));
        }
        if c == '{' || c == '}' {
            push_char(&mut out, c);
        }
        push_char(&mut out, c);
        assert(out@ =~= braces_doubled(it.seq().take(it.index() + 1)));
    }
    proof {
        assert(text@.take(text@.len() as int) == text@);
    }
    out
}

/// Turns one finished segment into its token.
fn classify_segment(seg: String) -> (token: Token)
    ensures
        token@ == classify(seg@),
{
    let len = seg.as_str().unicode_len();
    if len >= 1 && seg.as_str().get_char(0) == ':' {
        let name = seg.as_str().substring_char(1, len).to_owned();
        Token::Placeholder(name)
    } else if len >= 2 && seg.as_str().get_char(0) == '{' && seg.as_str().get_char(len - 1)
        == '}' {
        let name = seg.as_str().substring_char(1, len - 1).to_owned();
        Token::Placeholder(name)
    } else {
        Token::Literal(seg)
    }
}

/// A text always has at least one segment.
pub proof fn lemma_split_len(s: Seq<char>)
    ensures
        split(s).len() >= 1,
    decreases s.len(),
{
    if s.len() > 0 {
        lemma_split_len(s.drop_last());
    }
}

/// Joining the segments of a text gives the text back.
pub proof fn lemma_join_split(s: Seq<char>)
    ensures
        join(split(s), '/') == s,
    decreases s.len(),
{
    if s.len() > 0 {
        let init = s.drop_last();
        let before = split(init);
        lemma_join_split(init);
        lemma_split_len(init);
        if s.last() == '/' {
            assert(split(s).drop_last() == before);
            assert(join(split(s), '/') =~= init + seq!['/']);
        } else {
            let after = before.drop_last().push(before.last().push(s.last()));
            assert(after.drop_last() == before.drop_last());
            assert(join(after, '/') =~= join(before, '/').push(s.last()));
        }
        assert(s =~= init.push(s.last()));
    } else {
        assert(join(split(s), '/') =~= s);
    }
}

/// A template without placeholders renders, with no values, to the text it was parsed from.
pub proof fn lemma_literal_template(s: Seq<char>)
    requires
        placeholder_count(parsed(s)) == 0,
    ensures
        rendered(parsed(s), Seq::empty()) == s,
{
    let pieces = parsed(s);
    let parts = filled(pieces, Seq::empty());
    assert forall|i: int| 0 <= i < pieces.len() implies parts[i] == split(s)[i] by {
        lemma_count_take(pieces, i + 1);
        assert(pieces.take(i + 1).drop_last() == pieces.take(i));
    }
    assert(parts =~= split(s));
    lemma_join_split(s);
}

/// A prefix holds no more placeholders than the whole.
pub proof fn lemma_count_take(pieces: Seq<Piece>, n: int)
    requires
        0 <= n <= pieces.len(),
    ensures
        placeholder_count(pieces.take(n)) <= placeholder_count(pieces),
        placeholder_count(pieces.take(n)) <= n,
        n >= 1 && pieces[n - 1] is Placeholder ==> placeholder_count(pieces.take(n - 1))
            < placeholder_count(pieces),
    decreases pieces.len() - n,
{
    if n == pieces.len() {
        assert(pieces.take(n) == pieces);
        lemma_count_bound(pieces);
        if n >= 1 {
            assert(pieces.take(n - 1) == pieces.drop_last());
        }
    } else {
        lemma_count_take(pieces, n + 1);
        assert(pieces.take(n + 1).drop_last() == pieces.take(n));
        if n >= 1 {
            assert(pieces.take(n).drop_last() == pieces.take(n - 1));
        }
        lemma_count_bound(pieces.take(n));
    }
}

/// There are no more placeholders than pieces.
pub proof fn lemma_count_bound(pieces: Seq<Piece>)
    ensures
        placeholder_count(pieces) <= pieces.len(),
    decreases pieces.len(),
{
    if pieces.len() > 0 {
        lemma_count_bound(pieces.drop_last());
    }
}

} // verus!
