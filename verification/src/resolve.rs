//! The route case resolver: what one declared case binds to.
use crate::ident::{ascii_lower, to_ascii_lowercase};
use crate::method::Method;
use crate::template::{parsed, placeholder_count, PathTemplate};
use crate::text::{push_char, same_text, strings};
use vstd::prelude::*;

verus! {

/// One positional parameter of a case.
#[derive(Debug, Clone, Copy, PartialEq, Eq, Structural)]
pub struct Slot {
    /// Whether the value is written as a query string, not into the path.
    pub query: bool,
}

/// The parameter structure of a case.
#[derive(Debug, Clone, PartialEq, Eq)]
pub enum Shape {
    /// No data.
    Unit,
    /// An ordered list of positional slots.
    Positional(Vec<Slot>),
    /// Named fields, in declaration order.
    Named(Vec<String>),
}

/// One named member of a closed set of route cases.
#[derive(Debug, PartialEq, Eq)]
pub struct RouteCase {
    pub name: String,
    pub shape: Shape,
    pub declared_method: Option<Method>,
    pub declared_template: Option<String>,
    /// The cases of a nested resource that is mounted in place of a leaf route.
    pub mounted_resource: Option<Vec<RouteCase>>,
}

/// Why a set of cases does not compile.
#[derive(Debug, Clone, Copy, PartialEq, Eq, Structural)]
pub enum ErrorKind {
    /// An earlier case of the same set has the same name.
    DuplicateName,
    /// A case both mounts a resource and declares a method or a template.
    ConflictingDeclaration,
    /// A case declares a method without a template, or a template without a method.
    UnsupportedDeclaration,
    /// A case declares nothing and its name is none of the resource convention's.
    UnsupportedConvention,
    /// A slot is marked as query field in a shape other than a single positional slot.
    InvalidQueryField,
    /// The template does not have one placeholder for each path slot of the shape.
    TemplateMismatch,
    /// No case is designated as the fallback of the reverse lookup.
    MissingFallback,
}

/// How a leaf case takes its values.
#[derive(Debug, Clone, PartialEq, Eq)]
pub enum Form {
    /// No values.
    Unit,
    /// One value for each placeholder of the template.
    Positional,
    /// One record, written as a query string after the path.
    Query,
    /// One value for each of the named fields, written as a query string after the path.
    Named(Vec<String>),
}

/// The mathematical value of a `Form`.
pub enum FormView {
    Unit,
    Positional,
    Query,
    Named(Seq<Seq<char>>),
}

impl View for Form {
    type V = FormView;

    open spec fn view(&self) -> FormView {
        match self {
            Form::Unit => FormView::Unit,
            Form::Positional => FormView::Positional,
            Form::Query => FormView::Query,
            Form::Named(names) => FormView::Named(strings(names@)),
        }
    }
}

/// What a case binds to, as the resolver hands it on.
#[derive(Debug, Clone, PartialEq, Eq)]
pub enum Binding {
    /// A route of its own.
    Leaf { method: Method, template: PathTemplate, form: Form },
    /// The routes of the mounted resource.
    Mount,
}

/// What a case resolves to.
pub enum Resolution {
    Leaf { method: Method, template: Seq<char> },
    Mount,
    Fault(ErrorKind),
}

/// A text with its ASCII letters in lower case.
pub open spec fn lowered(s: Seq<char>) -> Seq<char> {
    s.map_values(|c: char| ascii_lower(c))
}

/// The resource convention: the method and template that a case name stands for when the case
/// declares nothing. Names are compared without regard to ASCII case.
pub open spec fn convention(name: Seq<char>) -> Option<(Method, Seq<char>)> {
    let low = lowered(name);
    if low == "index"@ {
        Some((Method::Get, ""@))
    } else if low == "create"@ {
        Some((Method::Post, ""@))
    } else if low == "new"@ {
        Some((Method::Get, "/new"@))
    } else if low == "show"@ {
        Some((Method::Get, "/{param}"@))
    } else if low == "edit"@ {
        Some((Method::Get, "/{param}/edit"@))
    } else if low == "update"@ {
        Some((Method::Patch, "/{param}"@))
    } else if low == "delete"@ {
        Some((Method::Delete, "/{param}"@))
    } else {
        None
    }
}

/// Whether some slot of the shape is marked as query field.
pub open spec fn has_query(shape: Shape) -> bool {
    match shape {
        Shape::Positional(slots) => exists|i: int|
            0 <= i < slots@.len() && (#[trigger] slots@[i]).query,
        _ => false,
    }
}

/// Whether the shape is a single positional slot marked as query field.
pub open spec fn is_query_record(shape: Shape) -> bool {
    match shape {
        Shape::Positional(slots) => slots@.len() == 1 && slots@[0].query,
        _ => false,
    }
}

/// The number of values that the shape writes into the path.
pub open spec fn path_slots(shape: Shape) -> nat {
    match shape {
        Shape::Positional(slots) => if is_query_record(shape) {
            0
        } else {
            slots@.len()
        },
        _ => 0,
    }
}

/// How a leaf case of this shape takes its values.
pub open spec fn form_of(shape: Shape) -> FormView {
    match shape {
        Shape::Unit => FormView::Unit,
        Shape::Positional(_) => if is_query_record(shape) {
            FormView::Query
        } else {
            FormView::Positional
        },
        Shape::Named(names) => FormView::Named(strings(names@)),
    }
}

/// What the declarations of a case say, the shape left aside: an explicit method and template
/// are taken as they are, a mounted resource makes the case a mount point, and a case that
/// declares nothing goes by the convention for its name.
pub open spec fn declared(c: RouteCase) -> Resolution {
    match (c.mounted_resource, c.declared_method, c.declared_template) {
        (Some(_), None, None) => Resolution::Mount,
        (Some(_), _, _) => Resolution::Fault(ErrorKind::ConflictingDeclaration),
        (None, Some(m), Some(t)) => Resolution::Leaf { method: m, template: t@ },
        (None, None, None) => match convention(c.name@) {
            Some((m, t)) => Resolution::Leaf { method: m, template: t },
            None => Resolution::Fault(ErrorKind::UnsupportedConvention),
        },
        (None, _, _) => Resolution::Fault(ErrorKind::UnsupportedDeclaration),
    }
}

/// What a case resolves to: its declaration, checked against its shape. A query mark needs a
/// single positional slot, and a leaf needs one placeholder for each path slot.
pub open spec fn resolution(c: RouteCase) -> Resolution {
    match declared(c) {
        Resolution::Fault(kind) => Resolution::Fault(kind),
        Resolution::Mount => if has_query(c.shape) && !is_query_record(c.shape) {
            Resolution::Fault(ErrorKind::InvalidQueryField)
        } else {
            Resolution::Mount
        },
        Resolution::Leaf { method, template } => if has_query(c.shape) && !is_query_record(
            c.shape,
        ) {
            Resolution::Fault(ErrorKind::InvalidQueryField)
        } else if placeholder_count(parsed(template)) != path_slots(c.shape) {
            Resolution::Fault(ErrorKind::TemplateMismatch)
        } else {
            Resolution::Leaf { method, template }
        },
    }
}

impl Shape {
    /// The shape of `n` positional slots, none of them a query field.
    pub fn positional(n: usize) -> (r: Shape)
        ensures
            r matches Shape::Positional(slots) && slots@ == Seq::new(
                n as nat,
                |i: int| Slot { query: false },
            ),
    {
        let mut slots: Vec<Slot> = Vec::new();
        let mut i: usize = 0;
        while i < n
            invariant
                i <= n,
                slots@ == Seq::new(i as nat, |k: int| Slot { query: false }),
            decreases n - i,
        {
            slots.push(Slot { query: false });
            assert(slots@ =~= Seq::new((i + 1) as nat, |k: int| Slot { query: false }));
            i += 1;
        }
        Shape::Positional(slots)
    }

    /// The shape of a single positional slot that is written as a query string.
    pub fn query_record() -> (r: Shape)
        ensures
            r matches Shape::Positional(slots) && slots@ == seq![Slot { query: true }],
            is_query_record(r),
    {
        let mut slots: Vec<Slot> = Vec::new();
        slots.push(Slot { query: true });
        assert(slots@ =~= seq![Slot { query: true }]);
        Shape::Positional(slots)
    }
}

impl RouteCase {
    /// A case that declares its method and template.
    pub fn explicit(name: &str, shape: Shape, method: Method, template: &str) -> (c: RouteCase)
        ensures
            c.name@ == name@,
            c.shape == shape,
            c.declared_method == Some(method),
            c.declared_template matches Some(t) && t@ == template@,
            c.mounted_resource is None,
    {
        RouteCase {
            name: name.to_owned(),
            shape,
            declared_method: Some(method),
            declared_template: Some(template.to_owned()),
            mounted_resource: None,
        }
    }

    /// A case that declares nothing and goes by the convention for its name.
    pub fn conventional(name: &str, shape: Shape) -> (c: RouteCase)
        ensures
            c.name@ == name@,
            c.shape == shape,
            c.declared_method is None,
            c.declared_template is None,
            c.mounted_resource is None,
    {
        RouteCase {
            name: name.to_owned(),
            shape,
            declared_method: None,
            declared_template: None,
            mounted_resource: None,
        }
    }

    /// A case that mounts the resource made of `cases`; its one slot takes an instance of that
    /// resource.
    pub fn mount(name: &str, cases: Vec<RouteCase>) -> (c: RouteCase)
        ensures
            c.name@ == name@,
            c.shape matches Shape::Positional(slots) && slots@ == seq![Slot { query: false }],
            c.declared_method is None,
            c.declared_template is None,
            c.mounted_resource == Some(cases),
            resolution(c) is Mount,
    {
        let mut slots: Vec<Slot> = Vec::new();
        slots.push(Slot { query: false });
        assert(slots@ =~= seq![Slot { query: false }]);
        RouteCase {
            name: name.to_owned(),
            shape: Shape::Positional(slots),
            declared_method: None,
            declared_template: None,
            mounted_resource: Some(cases),
        }
    }
}

/// Whether a binding is what the resolution of `c` asks for.
pub open spec fn binds(c: RouteCase, r: Result<Binding, ErrorKind>) -> bool {
    match resolution(c) {
        Resolution::Leaf { method: m, template: t } => {
            &&& r matches Ok(Binding::Leaf { method, template, form })
            &&& method == m
            &&& template@ == parsed(t)
            &&& form@ == form_of(c.shape)
        },
        Resolution::Mount => r == Ok::<Binding, ErrorKind>(Binding::Mount),
        Resolution::Fault(kind) => r == Err::<Binding, ErrorKind>(kind),
    }
}

fn lower(s: &str) -> (r: String)
    ensures
        r@ == lowered(s@),
{
    let mut r = String::new();
    for c in it: s.chars()
        invariant
            it.seq() == s@,
            r@ == lowered(it.seq().take(it.index() as int)),
    {
        let low = to_ascii_lowercase(c);
        push_char(&mut r, low);
        assert(r@ =~= lowered(it.seq().take(it.index() + 1)));
    }
    proof {
        assert(s@.take(s@.len() as int) == s@);
    }
    r
}

/// Looks a case name up in the resource convention.
pub fn convention_for(name: &str) -> (r: Option<(Method, String)>)
    ensures
        match convention(name@) {
            Some((m, t)) => r matches Some(found) && found.0 == m && found.1@ == t,
            None => r is None,
        },
{
    let low = lower(name);
    if same_text(low.as_str(), "index") {
        Some((Method::Get, "".to_owned()))
    } else if same_text(low.as_str(), "create") {
        Some((Method::Post, "".to_owned()))
    } else if same_text(low.as_str(), "new") {
        Some((Method::Get, "/new".to_owned()))
    } else if same_text(low.as_str(), "show") {
        Some((Method::Get, "/{param}".to_owned()))
    } else if same_text(low.as_str(), "edit") {
        Some((Method::Get, "/{param}/edit".to_owned()))
    } else if same_text(low.as_str(), "update") {
        Some((Method::Patch, "/{param}".to_owned()))
    } else if same_text(low.as_str(), "delete") {
        Some((Method::Delete, "/{param}".to_owned()))
    } else {
        None
    }
}

fn shape_has_query(shape: &Shape) -> (r: bool)
    ensures
        r == has_query(*shape),
{
    match shape {
        Shape::Positional(slots) => {
            let mut i: usize = 0;
            while i < slots.len()
                invariant
                    i <= slots.len(),
                    *shape matches Shape::Positional(inner) && inner == *slots,
                    forall|j: int| 0 <= j < i ==> !(#[trigger] slots@[j]).query,
                decreases slots.len() - i,
            {
                if slots[i].query {
                    assert(slots@[i as int].query);
                    return true;
                }
                i += 1;
            }
            false
        },
        _ => false,
    }
}

fn shape_is_query_record(shape: &Shape) -> (r: bool)
    ensures
        r == is_query_record(*shape),
{
    match shape {
        Shape::Positional(slots) => slots.len() == 1 && slots[0].query,
        _ => false,
    }
}

fn shape_path_slots(shape: &Shape) -> (r: usize)
    ensures
        r == path_slots(*shape),
{
    match shape {
        Shape::Positional(slots) => if shape_is_query_record(shape) {
            0
        } else {
            slots.len()
        },
        _ => 0,
    }
}

fn copy_names(names: &Vec<String>) -> (r: Vec<String>)
    ensures
        strings(r@) == strings(names@),
{
    let mut r: Vec<String> = Vec::new();
    let mut i: usize = 0;
    while i < names.len()
        invariant
            i <= names.len(),
            r@.len() == i,
            strings(r@) == strings(names@.take(i as int)),
        decreases names.len() - i,
    {
        let ghost before = r@;
        let name = names[i].clone();
        r.push(name);
        proof {
            assert forall|j: int| 0 <= j < i + 1 implies strings(r@)[j] == strings(
                names@.take(i + 1),
            )[j] by {
                if j < i {
                    assert(strings(before)[j] == strings(names@.take(i as int))[j]);
                }
            }
            assert(strings(r@) =~= strings(names@.take(i + 1)));
        }
        i += 1;
    }
    proof {
        assert(names@.take(names@.len() as int) == names@);
    }
    r
}

fn shape_form(shape: &Shape) -> (r: Form)
    ensures
        r@ == form_of(*shape),
{
    match shape {
        Shape::Unit => Form::Unit,
        Shape::Positional(_) => if shape_is_query_record(shape) {
            Form::Query
        } else {
            Form::Positional
        },
        Shape::Named(names) => Form::Named(copy_names(names)),
    }
}

/// Checks a resolved method and template against the shape of the case.
fn bind_leaf(case: &RouteCase, method: Method, text: &str) -> (r: Result<Binding, ErrorKind>)
    requires
        declared(*case) == (Resolution::Leaf { method, template: text@ }),
    ensures
        binds(*case, r),
{
    if shape_has_query(&case.shape) && !shape_is_query_record(&case.shape) {
        return Err(ErrorKind::InvalidQueryField);
    }
    let template = PathTemplate::parse(text);
    if template.placeholders() != shape_path_slots(&case.shape) {
        return Err(ErrorKind::TemplateMismatch);
    }
    let form = shape_form(&case.shape);
    Ok(Binding::Leaf { method, template, form })
}

/// Resolves one case: an explicit declaration is used as it stands, a mounted resource makes a
/// mount point, and a case that declares nothing gets the convention's method and template for
/// its name. Any other combination, a misplaced query mark, and a template whose placeholders
/// do not match the shape are faults.
pub fn resolve(case: &RouteCase) -> (r: Result<Binding, ErrorKind>)
    ensures
        binds(*case, r),
{
    match &case.mounted_resource {
        Some(_) => {
            if case.declared_method.is_some() || case.declared_template.is_some() {
                Err(ErrorKind::ConflictingDeclaration)
            } else if shape_has_query(&case.shape) && !shape_is_query_record(&case.shape) {
                Err(ErrorKind::InvalidQueryField)
            } else {
                Ok(Binding::Mount)
            }
        },
        None => match (&case.declared_method, &case.declared_template) {
            (Some(m), Some(t)) => bind_leaf(case, *m, t.as_str()),
            (None, None) => match convention_for(case.name.as_str()) {
                Some((m, t)) => bind_leaf(case, m, t.as_str()),
                None => Err(ErrorKind::UnsupportedConvention),
            },
            _ => Err(ErrorKind::UnsupportedDeclaration),
        },
    }
}

} // verus!
