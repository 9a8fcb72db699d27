//! Reading a case from the attributes written on it.
use crate::method::Method;
use crate::resolve::{ErrorKind, RouteCase, Shape};
use crate::text::same_text;
use vstd::prelude::*;

verus! {

/// One attribute of a case, as far as it is read: its name if it is a single word, and its
/// argument if that is a single text.
#[derive(Debug, Clone, PartialEq, Eq)]
pub struct Attribute {
    pub name: Option<String>,
    pub argument: Option<String>,
}

/// What a route attribute declares.
pub enum Declared {
    /// A method and a template.
    Route(Method, Seq<char>),
    /// A template under a name that is no method.
    Template(Seq<char>),
}

/// Whether a name marks a mounted resource.
pub open spec fn is_mount_name(name: Seq<char>) -> bool {
    name == "resource"@ || name == "router"@
}

/// Whether the attribute declares a route: a name with a text.
pub open spec fn is_route(a: Attribute) -> bool {
    a.name is Some && a.argument is Some
}

/// Whether the attribute marks a mounted resource: the name `resource` or `router`, without a
/// text.
pub open spec fn is_marker(a: Attribute) -> bool {
    a.name matches Some(name) && is_mount_name(name@) && a.argument is None
}

/// Whether one of the first `n` attributes declares a route.
pub open spec fn has_route(attrs: Seq<Attribute>, n: nat) -> bool {
    exists|i: int| 0 <= i < n && i < attrs.len() && is_route(#[trigger] attrs[i])
}

/// Whether one of the first `n` attributes marks a mounted resource.
pub open spec fn has_marker(attrs: Seq<Attribute>, n: nat) -> bool {
    exists|i: int| 0 <= i < n && i < attrs.len() && is_marker(#[trigger] attrs[i])
}

/// What a route attribute declares: under the name of a method a route, under any other name
/// a template without a method.
pub open spec fn says(a: Attribute) -> Option<Declared> {
    match (a.name, a.argument) {
        (Some(name), Some(text)) => match Method::named(name@) {
            Some(m) => Some(Declared::Route(m, text@)),
            None => Some(Declared::Template(text@)),
        },
        _ => None,
    }
}

/// What the first route attribute among the first `n` attributes declares.
pub open spec fn first_said(attrs: Seq<Attribute>, n: nat) -> Option<Declared>
    decreases n,
{
    if n == 0 || n > attrs.len() {
        None
    } else {
        match first_said(attrs, (n - 1) as nat) {
            Some(d) => Some(d),
            None => says(attrs[n - 1]),
        }
    }
}

/// Whether the shape has a first positional slot, which can take a nested instance.
pub open spec fn takes_nested(shape: Shape) -> bool {
    shape matches Shape::Positional(slots) && slots@.len() >= 1
}

/// Whether `r` is the case that the attributes declare.
///
/// A route attribute and a mount marker on one case are a conflict, in whatever order they
/// stand. Without a marker the first route attribute decides. A marker alone declares a mount
/// point where the shape has a slot for the nested instance, and is a fault where it has none.
/// A case without attributes declares nothing; attributes of which none is a route or a marker
/// are a fault.
pub open spec fn declares(
    name: Seq<char>,
    shape: Shape,
    attrs: Seq<Attribute>,
    r: Result<RouteCase, ErrorKind>,
) -> bool {
    let route = has_route(attrs, attrs.len());
    let marker = has_marker(attrs, attrs.len());
    if route && marker {
        r == Err::<RouteCase, ErrorKind>(ErrorKind::ConflictingDeclaration)
    } else if !route && (attrs.len() > 0 && !(marker && takes_nested(shape))) {
        r == Err::<RouteCase, ErrorKind>(ErrorKind::UnsupportedDeclaration)
    } else {
        &&& r matches Ok(c)
        &&& c.name@ == name
        &&& c.shape == shape
        &&& if marker {
            &&& c.declared_method is None
            &&& c.declared_template is None
            &&& c.mounted_resource matches Some(nested) && nested@.len() == 0
        } else {
            &&& c.mounted_resource is None
            &&& match first_said(attrs, attrs.len()) {
                None => c.declared_method is None && c.declared_template is None,
                Some(Declared::Route(m, text)) => {
                    &&& c.declared_method == Some(m)
                    &&& c.declared_template matches Some(t) && t@ == text
                },
                Some(Declared::Template(text)) => {
                    &&& c.declared_method is None
                    &&& c.declared_template matches Some(t) && t@ == text
                },
            }
        }
    }
}

/// Once a route attribute is found, later attributes change nothing of what it declares.
pub proof fn lemma_said_persists(attrs: Seq<Attribute>, m: nat, n: nat)
    requires
        m <= n <= attrs.len(),
        first_said(attrs, m) is Some,
    ensures
        first_said(attrs, n) == first_said(attrs, m),
    decreases n - m,
{
    if m < n {
        lemma_said_persists(attrs, m, (n - 1) as nat);
    }
}

/// Without a route attribute nothing is declared.
pub proof fn lemma_none_said(attrs: Seq<Attribute>, n: nat)
    requires
        n <= attrs.len(),
        !has_route(attrs, n),
    ensures
        first_said(attrs, n) is None,
    decreases n,
{
    if n > 0 {
        assert(!is_route(attrs[n - 1]));
        assert forall|i: int| 0 <= i < n - 1 && i < attrs.len() implies !is_route(
            #[trigger] attrs[i],
        ) by {}
        lemma_none_said(attrs, (n - 1) as nat);
    }
}

fn shape_takes_nested(shape: &Shape) -> (r: bool)
    ensures
        r == takes_nested(*shape),
{
    match shape {
        Shape::Positional(slots) => slots.len() >= 1,
        _ => false,
    }
}

fn attribute_is_marker(a: &Attribute) -> (r: bool)
    ensures
        r == is_marker(*a),
{
    match (&a.name, &a.argument) {
        (Some(name), None) => same_text(name.as_str(), "resource") || same_text(
            name.as_str(),
            "router",
        ),
        _ => false,
    }
}

/// Reads a case from its name, its shape and its attributes, in the order written.
///
/// A route attribute is a name with a text: under a method's name it declares an explicit
/// route, under another name a template without a method. The marker of a mounted resource is
/// the name `resource` or `router` without a text; the resource itself is compiled on its own.
/// A case that carries both is a conflict, whatever their order. Attributes of which none is a
/// route or a marker, and a marker on a shape without a slot, are unsupported; a case without
/// attributes declares nothing.
pub fn declare(name: &str, shape: Shape, attrs: &Vec<Attribute>) -> (r: Result<
    RouteCase,
    ErrorKind,
>)
    ensures
        declares(name@, shape, attrs@, r),
{
    let mut method: Option<Method> = None;
    let mut template: Option<String> = None;
    let mut marker = false;
    let mut i: usize = 0;
    while i < attrs.len()
        invariant
            i <= attrs.len(),
            marker == has_marker(attrs@, i as nat),
            (template is Some) == has_route(attrs@, i as nat),
            match first_said(attrs@, i as nat) {
                None => method is None && template is None,
                Some(Declared::Route(m, text)) => {
                    &&& method == Some(m)
                    &&& template matches Some(t) && t@ == text
                },
                Some(Declared::Template(text)) => {
                    &&& method is None
                    &&& template matches Some(t) && t@ == text
                },
            },
        decreases attrs.len() - i,
    {
        let a = &attrs[i];
        proof {
            if !has_route(attrs@, i as nat) {
                lemma_none_said(attrs@, i as nat);
            }
        }
        if attribute_is_marker(a) {
            marker = true;
        }
        match (&a.name, &a.argument) {
            (Some(word), Some(text)) => {
                if template.is_none() {
                    method = Method::from_name(word.as_str());
                    template = Some(text.clone());
                }
            },
            _ => {},
        }
        proof {
            assert(attrs@[i as int] == *a);
            assert(has_marker(attrs@, (i + 1) as nat) == (has_marker(attrs@, i as nat)
                || is_marker(*a)));
            assert(has_route(attrs@, (i + 1) as nat) == (has_route(attrs@, i as nat) || is_route(
                *a,
            )));
        }
        i += 1;
    }
    if template.is_some() && marker {
        Err(ErrorKind::ConflictingDeclaration)
    } else if template.is_some() {
        Ok(
            RouteCase {
                name: name.to_owned(),
                shape,
                declared_method: method,
                declared_template: template,
                mounted_resource: None,
            },
        )
    } else if marker {
        if shape_takes_nested(&shape) {
            Ok(
                RouteCase {
                    name: name.to_owned(),
                    shape,
                    declared_method: None,
                    declared_template: None,
                    mounted_resource: Some(Vec::new()),
                },
            )
        } else {
            Err(ErrorKind::UnsupportedDeclaration)
        }
    } else if attrs.len() > 0 {
        Err(ErrorKind::UnsupportedDeclaration)
    } else {
        Ok(
            RouteCase {
                name: name.to_owned(),
                shape,
                declared_method: None,
                declared_template: None,
                mounted_resource: None,
            },
        )
    }
}

} // verus!
