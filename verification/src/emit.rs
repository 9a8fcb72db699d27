//! What a code generator needs to write the URL function of a set of cases as a `match`: the
//! names that a pattern binds, and the right side of each arm.
use crate::resolve::{
    form_of, resolution, resolve, Binding, ErrorKind, Form, FormView, Resolution, RouteCase,
    Shape,
};
use crate::template::{
    braces_doubled, double_braces, format_string, lemma_literal_template, parsed,
    placeholder_count, rendered, PathTemplate,
};
use crate::text::{push_char, strings};
use vstd::prelude::*;
use vstd::string::StringExecFns;

verus! {

/// The right side of one arm of the URL function. Every path in it has the prefix of its set
/// before it.
#[derive(Debug, Clone, PartialEq, Eq)]
pub enum UrlArm {
    /// The path itself.
    Literal(String),
    /// The path, followed by `?` and the query string of the bound record unless that is empty.
    Query(String),
    /// The URL of the bound nested instance.
    Delegate,
    /// A format string, with the bindings that are its arguments.
    Format { format: String, bindings: Vec<String> },
    /// The path, followed by `?` and the query string of the named fields, each with the value
    /// bound to its name.
    Named { path: String, fields: Vec<String> },
}

/// The mathematical value of a `UrlArm`.
pub enum ArmView {
    Literal(Seq<char>),
    Query(Seq<char>),
    Delegate,
    Format { format: Seq<char>, bindings: Seq<Seq<char>> },
    Named { path: Seq<char>, fields: Seq<Seq<char>> },
}

impl View for UrlArm {
    type V = ArmView;

    open spec fn view(&self) -> ArmView {
        match self {
            UrlArm::Literal(path) => ArmView::Literal(path@),
            UrlArm::Query(path) => ArmView::Query(path@),
            UrlArm::Delegate => ArmView::Delegate,
            UrlArm::Format { format, bindings } => ArmView::Format {
                format: format@,
                bindings: strings(bindings@),
            },
            UrlArm::Named { path, fields } => ArmView::Named {
                path: path@,
                fields: strings(fields@),
            },
        }
    }
}

/// The decimal digit for a value below 10.
pub open spec fn digit(n: nat) -> char {
    (0x30 + n) as char
}

/// A number in decimal, without leading zeros.
pub open spec fn decimal(n: nat) -> Seq<char>
    decreases n,
{
    if n < 10 {
        seq![digit(n)]
    } else {
        decimal(n / 10).push(digit(n % 10))
    }
}

/// The name bound to positional slot `i`: `x` and the index.
pub open spec fn binding(i: nat) -> Seq<char> {
    seq!['x'] + decimal(i)
}

/// The names bound to `n` positional slots.
pub open spec fn bindings(n: nat) -> Seq<Seq<char>> {
    Seq::new(n, |i: int| binding(i as nat))
}

/// The arm that a case of a set with this prefix gets.
pub open spec fn arm_of(prefix: Seq<char>, c: RouteCase) -> Result<ArmView, ErrorKind> {
    match resolution(c) {
        Resolution::Fault(kind) => Err(kind),
        Resolution::Mount => Ok(ArmView::Delegate),
        Resolution::Leaf { method, template } => Ok(
            match form_of(c.shape) {
                FormView::Unit => ArmView::Literal(prefix + template),
                FormView::Query => ArmView::Query(prefix + template),
                FormView::Positional => ArmView::Format {
                    format: braces_doubled(prefix) + format_string(parsed(template)),
                    bindings: bindings(c.shape->Positional_0@.len()),
                },
                FormView::Named(names) => ArmView::Named {
                    path: prefix + template,
                    fields: names,
                },
            },
        ),
    }
}

fn push_decimal(s: &mut String, n: usize)
    ensures
        final(s)@ == old(s)@ + decimal(n as nat),
    decreases n,
{
    if n >= 10 {
        push_decimal(s, n / 10);
    }
    let d: u8 = (n % 10) as u8;
    push_char(s, (0x30 + d) as char);
    assert(final(s)@ =~= old(s)@ + decimal(n as nat));
}

/// The names that the pattern of a case with `n` positional slots binds: `x0`, `x1`, and so
/// on.
pub fn binding_names(n: usize) -> (r: Vec<String>)
    ensures
        strings(r@) == bindings(n as nat),
{
    let mut r: Vec<String> = Vec::new();
    let mut i: usize = 0;
    while i < n
        invariant
            i <= n,
            r@.len() == i,
            forall|k: int| 0 <= k < i ==> (#[trigger] r@[k])@ == binding(k as nat),
        decreases n - i,
    {
        let mut name = String::new();
        push_char(&mut name, 'x');
        push_decimal(&mut name, i);
        r.push(name);
        i += 1;
    }
    assert(strings(r@) =~= bindings(n as nat));
    r
}

/// The prefix followed by a template that has no placeholder.
fn literal_path(prefix: &str, template: &PathTemplate) -> (r: String)
    requires
        placeholder_count(template@) == 0,
    ensures
        r@ == prefix@ + rendered(template@, Seq::empty()),
{
    let none: Vec<String> = Vec::new();
    proof {
        assert(strings(none@) =~= Seq::<Seq<char>>::empty());
    }
    let mut path = prefix.to_owned();
    match template.render(&none) {
        Ok(rest) => {
            path.append(rest.as_str());
        },
        Err(_) => {
            assert(false);
        },
    }
    path
}

/// The right side of the arm for `case` in the URL function of a set with this prefix: a case
/// without data gives its path, a query-field case its path, to be followed by the record's
/// query string, a mount point the nested instance's URL, a case with positional values a
/// format string over its bindings, and a case with named fields its path and the names of
/// the fields. A case at fault gives its fault.
pub fn url_arm(prefix: &str, case: &RouteCase) -> (r: Result<UrlArm, ErrorKind>)
    ensures
        match arm_of(prefix@, *case) {
            Ok(arm) => r matches Ok(a) && a@ == arm,
            Err(kind) => r == Err::<UrlArm, ErrorKind>(kind),
        },
{
    match resolve(case) {
        Err(kind) => Err(kind),
        Ok(Binding::Mount) => Ok(UrlArm::Delegate),
        Ok(Binding::Leaf { method, template, form }) => {
            proof {
                let text = resolution(*case)->Leaf_template;
                if placeholder_count(parsed(text)) == 0 {
                    lemma_literal_template(text);
                }
            }
            match form {
                Form::Unit => Ok(UrlArm::Literal(literal_path(prefix, &template))),
                Form::Query => Ok(UrlArm::Query(literal_path(prefix, &template))),
                Form::Named(names) => Ok(
                    UrlArm::Named { path: literal_path(prefix, &template), fields: names },
                ),
                Form::Positional => {
                    let n = match &case.shape {
                        Shape::Positional(slots) => slots.len(),
                        _ => 0,
                    };
                    let mut format = double_braces(prefix);
                    let tail = template.to_format_string();
                    format.append(tail.as_str());
                    Ok(UrlArm::Format { format, bindings: binding_names(n) })
                },
            }
        },
    }
}

} // verus!
