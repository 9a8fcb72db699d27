//! Case instances, and the URL and method that a compiled table gives them.
use crate::method::Method;
use crate::query::{encode, encoded, field_views, FieldView, QueryField};
use crate::resolve::{Form, FormView};
use crate::table::{RouteTable, Target};
use crate::template::{placeholder_count, rendered, Piece};
use crate::text::{push_char, strings};
use vstd::prelude::*;
use vstd::string::StringExecFns;

verus! {

/// The parameter data of a case instance.
#[derive(Debug, PartialEq, Eq)]
pub enum Args {
    /// No data.
    Unit,
    /// The values of the positional slots, in order.
    Positional(Vec<String>),
    /// The values of the named fields, in declaration order.
    Named(Vec<String>),
    /// The fields of the record in a query-field slot.
    Query(Vec<QueryField>),
    /// An instance of the mounted resource.
    Nested(Box<CaseInstance>),
}

/// A concrete value of one case of a table.
#[derive(Debug, PartialEq, Eq)]
pub struct CaseInstance {
    /// The index of the case in its table.
    pub case: usize,
    pub args: Args,
}

/// The record whose fields are `names`, each with its value.
pub open spec fn named_fields(names: Seq<Seq<char>>, values: Seq<Seq<char>>) -> Seq<FieldView> {
    Seq::new(names.len(), |i: int| FieldView { name: names[i], value: Some(values[i]) })
}

/// What follows the path of a query-field case: nothing for an empty query string, else `?`
/// and the query string.
pub open spec fn query_suffix(q: Seq<char>) -> Seq<char> {
    if q.len() == 0 {
        q
    } else {
        seq!['?'] + q
    }
}

/// The values for the path and the text after the path that the data gives a leaf of this
/// form, if the data is of the form's kind. Values for the path stand as given; values after
/// the path stand in a query string, percent-encoded.
pub open spec fn leaf_parts(form: FormView, args: Args) -> Option<(Seq<Seq<char>>, Seq<char>)> {
    match (form, args) {
        (FormView::Unit, Args::Unit) => Some((Seq::empty(), Seq::empty())),
        (FormView::Positional, Args::Positional(values)) => Some((strings(values@), Seq::empty())),
        (FormView::Query, Args::Query(fields)) => Some(
            (Seq::empty(), query_suffix(encoded(field_views(fields@)))),
        ),
        (FormView::Named(names), Args::Named(values)) => if values@.len() == names.len() {
            Some((Seq::empty(), seq!['?'] + encoded(named_fields(names, strings(values@)))))
        } else {
            None
        },
        _ => None,
    }
}

/// The URL of a leaf: the prefix, the template with its placeholders filled, and what follows
/// the path. There is none if the data is not of the form's kind or does not fill the
/// placeholders one for one.
pub open spec fn leaf_url(
    prefix: Seq<char>,
    template: Seq<Piece>,
    form: FormView,
    args: Args,
) -> Option<Seq<char>> {
    match leaf_parts(form, args) {
        Some((values, tail)) => if values.len() == placeholder_count(template) {
            Some(prefix + rendered(template, values) + tail)
        } else {
            None
        },
        None => None,
    }
}

/// The URL that the table gives an instance. A mount point hands the nested instance to the
/// table of the mounted resource and gives its URL unchanged.
pub open spec fn url_of(t: RouteTable, inst: CaseInstance) -> Option<Seq<char>>
    decreases inst,
{
    if inst.case >= t.entries@.len() {
        None
    } else {
        match t.entries@[inst.case as int].target {
            Target::Leaf { method, template, form } => leaf_url(
                t.prefix@,
                template@,
                form@,
                inst.args,
            ),
            Target::Mount(table) => match inst.args {
                Args::Nested(inner) => url_of(table, *inner),
                _ => None,
            },
        }
    }
}

/// The method that the table gives an instance: that of its case, or for a mount point that
/// of the nested instance.
pub open spec fn method_of(t: RouteTable, inst: CaseInstance) -> Option<Method>
    decreases inst,
{
    if inst.case >= t.entries@.len() {
        None
    } else {
        match t.entries@[inst.case as int].target {
            Target::Leaf { method, template, form } => Some(method),
            Target::Mount(table) => match inst.args {
                Args::Nested(inner) => method_of(table, *inner),
                _ => None,
            },
        }
    }
}

fn pair_fields(names: &Vec<String>, values: &Vec<String>) -> (r: Vec<QueryField>)
    requires
        names.len() == values.len(),
    ensures
        field_views(r@) == named_fields(strings(names@), strings(values@)),
{
    let mut r: Vec<QueryField> = Vec::new();
    let mut i: usize = 0;
    while i < names.len()
        invariant
            i <= names.len(),
            names.len() == values.len(),
            r@.len() == i,
            forall|k: int|
                0 <= k < i ==> (#[trigger] r@[k])@ == (FieldView {
                    name: names@[k]@,
                    value: Some(values@[k]@),
                }),
        decreases names.len() - i,
    {
        r.push(QueryField { name: names[i].clone(), value: Some(values[i].clone()) });
        i += 1;
    }
    proof {
        assert(field_views(r@) =~= named_fields(strings(names@), strings(values@)));
    }
    r
}

impl RouteTable {
    /// The URL of an instance, if the instance is one of this table: its case exists and its
    /// data is what the case takes.
    pub fn to_url(&self, inst: &CaseInstance) -> (r: Option<String>)
        ensures
            match url_of(*self, *inst) {
                Some(url) => r matches Some(s) && s@ == url,
                None => r is None,
            },
        decreases inst,
    {
        if inst.case >= self.entries.len() {
            return None;
        }
        match &self.entries[inst.case].target {
            Target::Mount(table) => match &inst.args {
                Args::Nested(inner) => table.to_url(inner),
                _ => None,
            },
            Target::Leaf { method, template, form } => {
                let none: Vec<String> = Vec::new();
                proof {
                    assert(strings(none@) =~= Seq::<Seq<char>>::empty());
                }
                let mut tail = String::new();
                let path = match (form, &inst.args) {
                    (Form::Unit, Args::Unit) => template.render(&none),
                    (Form::Positional, Args::Positional(values)) => template.render(values),
                    (Form::Query, Args::Query(fields)) => {
                        let q = encode(fields);
                        if !q.as_str().is_empty() {
                            push_char(&mut tail, '?');
                            tail.append(q.as_str());
                        }
                        template.render(&none)
                    },
                    (Form::Named(names), Args::Named(values)) => {
                        if values.len() != names.len() {
                            return None;
                        }
                        let fields = pair_fields(names, values);
                        let q = encode(&fields);
                        push_char(&mut tail, '?');
                        tail.append(q.as_str());
                        template.render(&none)
                    },
                    _ => {
                        return None;
                    },
                };
                match path {
                    Ok(path) => {
                        let mut url = self.prefix.clone();
                        url.append(path.as_str());
                        url.append(tail.as_str());
                        Some(url)
                    },
                    Err(_) => None,
                }
            },
        }
    }

    /// The HTTP verb of an instance, if its case exists; for a mount point that of the nested
    /// instance.
    pub fn to_method(&self, inst: &CaseInstance) -> (r: Option<String>)
        ensures
            match method_of(*self, *inst) {
                Some(m) => r matches Some(s) && s@ == m.verb_text(),
                None => r is None,
            },
        decreases inst,
    {
        if inst.case >= self.entries.len() {
            return None;
        }
        match &self.entries[inst.case].target {
            Target::Mount(table) => match &inst.args {
                Args::Nested(inner) => table.to_method(inner),
                _ => None,
            },
            Target::Leaf { method, template, form } => Some(method.verb()),
        }
    }
}

} // verus!
