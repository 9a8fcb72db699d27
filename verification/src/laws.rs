//! What holds of every compiled table, stated over the declared cases.
use crate::method::Method;
use crate::query::{encoded, field_views, lemma_encoded_all_absent};
use crate::resolve::{form_of, is_query_record, resolution, Resolution, RouteCase, Shape};
use crate::table::{
    case_routes, entry_represents, first_fault, first_named, handler_name, lemma_named_persists,
    lemma_names_unique, mount_prefix, represents, routes, set_routes, Entry, Route, RouteTable,
    Target,
};
use crate::template::{lemma_literal_template, parsed, pattern};
use crate::url::{leaf_url, method_of, url_of, Args, CaseInstance};
use vstd::prelude::*;

verus! {

/// The URL of an instance as the declarations give it: a leaf fills its template behind the
/// prefix of its set, and a mount point gives the URL of the nested instance, under the prefix
/// made of its own name.
pub open spec fn declared_url(
    prefix: Seq<char>,
    cases: Seq<RouteCase>,
    inst: CaseInstance,
) -> Option<Seq<char>>
    decreases inst,
{
    if inst.case >= cases.len() {
        None
    } else {
        let c = cases[inst.case as int];
        match resolution(c) {
            Resolution::Leaf { method, template } => leaf_url(
                prefix,
                parsed(template),
                form_of(c.shape),
                inst.args,
            ),
            Resolution::Mount => match (c.mounted_resource, inst.args) {
                (Some(nested), Args::Nested(inner)) => declared_url(
                    mount_prefix(c.name@),
                    nested@,
                    *inner,
                ),
                _ => None,
            },
            Resolution::Fault(_) => None,
        }
    }
}

/// The method of an instance as the declarations give it.
pub open spec fn declared_method(cases: Seq<RouteCase>, inst: CaseInstance) -> Option<Method>
    decreases inst,
{
    if inst.case >= cases.len() {
        None
    } else {
        let c = cases[inst.case as int];
        match resolution(c) {
            Resolution::Leaf { method, template } => Some(method),
            Resolution::Mount => match (c.mounted_resource, inst.args) {
                (Some(nested), Args::Nested(inner)) => declared_method(nested@, *inner),
                _ => None,
            },
            Resolution::Fault(_) => None,
        }
    }
}

/// Whether the data is what a leaf of this shape takes.
pub open spec fn shape_takes(shape: Shape, args: Args) -> bool {
    match (shape, args) {
        (Shape::Unit, Args::Unit) => true,
        (Shape::Positional(slots), Args::Positional(values)) => !is_query_record(shape)
            && values@.len() == slots@.len(),
        (Shape::Positional(_), Args::Query(_)) => is_query_record(shape),
        (Shape::Named(names), Args::Named(values)) => values@.len() == names@.len(),
        _ => false,
    }
}

/// Whether the instance is one of the set: its case exists, and it carries what the case
/// takes, for a mount point an instance of the mounted resource.
pub open spec fn fits(cases: Seq<RouteCase>, inst: CaseInstance) -> bool
    decreases inst,
{
    &&& inst.case < cases.len()
    &&& match (cases[inst.case as int].mounted_resource, inst.args) {
        (Some(nested), Args::Nested(inner)) => fits(nested@, *inner),
        (Some(_), _) => false,
        (None, args) => shape_takes(cases[inst.case as int].shape, args),
    }
}

/// A compiled table gives every instance the URL and the method that the declarations give
/// it.
pub proof fn lemma_table_follows_declarations(
    t: RouteTable,
    prefix: Seq<char>,
    scope: Seq<char>,
    cases: Seq<RouteCase>,
    inst: CaseInstance,
)
    requires
        represents(t, prefix, scope, cases),
    ensures
        url_of(t, inst) == declared_url(prefix, cases, inst),
        method_of(t, inst) == declared_method(cases, inst),
    decreases inst,
{
    if inst.case < cases.len() {
        let c = cases[inst.case as int];
        let e = t.entries@[inst.case as int];
        assert(entry_represents(e, c));
        match (c.mounted_resource, inst.args, e.target) {
            (Some(nested), Args::Nested(inner), Target::Mount(table)) => {
                lemma_table_follows_declarations(
                    table,
                    mount_prefix(c.name@),
                    c.name@,
                    nested@,
                    *inner,
                );
            },
            _ => {},
        }
    }
}

/// The URL and method functions of a compiled table are total: an instance has a URL, and a
/// method, exactly when it is one of the set.
pub proof fn lemma_total(
    t: RouteTable,
    prefix: Seq<char>,
    scope: Seq<char>,
    cases: Seq<RouteCase>,
    inst: CaseInstance,
)
    requires
        represents(t, prefix, scope, cases),
    ensures
        url_of(t, inst) is Some <==> fits(cases, inst),
        fits(cases, inst) ==> method_of(t, inst) is Some,
    decreases inst,
{
    if inst.case < cases.len() {
        let c = cases[inst.case as int];
        let e = t.entries@[inst.case as int];
        assert(entry_represents(e, c));
        match (c.mounted_resource, inst.args, e.target) {
            (Some(nested), Args::Nested(inner), Target::Mount(table)) => {
                lemma_total(table, mount_prefix(c.name@), c.name@, nested@, *inner);
            },
            _ => {},
        }
    }
}

/// In a compiled table every case is found under its name, at its own index.
pub proof fn lemma_case_found(
    t: RouteTable,
    prefix: Seq<char>,
    scope: Seq<char>,
    cases: Seq<RouteCase>,
    i: int,
)
    requires
        represents(t, prefix, scope, cases),
        first_fault(cases, cases.len()) is None,
        0 <= i < cases.len(),
    ensures
        first_named(t.entries@, cases[i].name@, cases.len()) == Some(i),
{
    let name = cases[i].name@;
    assert forall|j: int| 0 <= j < i implies (#[trigger] t.entries@[j]).name@ != name by {
        assert(entry_represents(t.entries@[j], cases[j]));
        lemma_names_unique(cases, j, i);
    }
    lemma_not_named(t.entries@, name, i as nat);
    assert(entry_represents(t.entries@[i], cases[i]));
    assert(first_named(t.entries@, name, (i + 1) as nat) == Some(i));
    lemma_named_persists(t.entries@, name, (i + 1) as nat, cases.len());
}

/// No entry is found under a name that none of the first entries has.
pub proof fn lemma_not_named(entries: Seq<Entry>, name: Seq<char>, n: nat)
    requires
        n <= entries.len(),
        forall|j: int| 0 <= j < n ==> (#[trigger] entries[j]).name@ != name,
    ensures
        first_named(entries, name, n) is None,
    decreases n,
{
    if n > 0 {
        lemma_not_named(entries, name, (n - 1) as nat);
    }
}

/// The URL of a case without data is its prefix and its template, as written.
pub proof fn lemma_unit_url(
    t: RouteTable,
    prefix: Seq<char>,
    scope: Seq<char>,
    cases: Seq<RouteCase>,
    i: usize,
)
    requires
        represents(t, prefix, scope, cases),
        i < cases.len(),
        cases[i as int].shape is Unit,
        resolution(cases[i as int]) is Leaf,
    ensures
        url_of(t, CaseInstance { case: i, args: Args::Unit }) == Some(
            prefix + resolution(cases[i as int])->Leaf_template,
        ),
{
    let c = cases[i as int];
    let text = resolution(c)->Leaf_template;
    assert(entry_represents(t.entries@[i as int], c));
    lemma_literal_template(text);
    assert(prefix + text + Seq::<char>::empty() =~= prefix + text);
}

/// A query-field case whose record has no present value has the bare path as its URL.
pub proof fn lemma_query_omitted(
    t: RouteTable,
    prefix: Seq<char>,
    scope: Seq<char>,
    cases: Seq<RouteCase>,
    inst: CaseInstance,
)
    requires
        represents(t, prefix, scope, cases),
        inst.case < cases.len(),
        resolution(cases[inst.case as int]) is Leaf,
        is_query_record(cases[inst.case as int].shape),
        inst.args matches Args::Query(fields) && forall|k: int|
            0 <= k < fields@.len() ==> (#[trigger] fields@[k]).value is None,
    ensures
        url_of(t, inst) == Some(prefix + resolution(cases[inst.case as int])->Leaf_template),
{
    let c = cases[inst.case as int];
    let text = resolution(c)->Leaf_template;
    assert(entry_represents(t.entries@[inst.case as int], c));
    lemma_literal_template(text);
    let fields = inst.args->Query_0;
    let views = field_views(fields@);
    assert forall|k: int| 0 <= k < views.len() implies views[k].value is None by {
        assert(fields@[k].value is None);
    }
    lemma_encoded_all_absent(views);
    assert(prefix + text + encoded(views) =~= prefix + text);
}

/// The dispatch list of the first `m` cases is the start of the list of the first `n`.
pub proof fn lemma_routes_grow(
    prefix: Seq<char>,
    scope: Seq<char>,
    cases: Seq<RouteCase>,
    m: nat,
    n: nat,
)
    requires
        m <= n <= cases.len(),
    ensures
        set_routes(prefix, scope, cases, m).len() <= set_routes(prefix, scope, cases, n).len(),
        set_routes(prefix, scope, cases, n).take(
            set_routes(prefix, scope, cases, m).len() as int,
        ) == set_routes(prefix, scope, cases, m),
    decreases n - m,
{
    let short = set_routes(prefix, scope, cases, m);
    if m < n {
        lemma_routes_grow(prefix, scope, cases, m, (n - 1) as nat);
        let before = set_routes(prefix, scope, cases, (n - 1) as nat);
        let all = set_routes(prefix, scope, cases, n);
        assert(all == before + case_routes(prefix, scope, cases[n - 1]));
        assert(all.take(short.len() as int) =~= before.take(short.len() as int));
    } else {
        assert(short.take(short.len() as int) =~= short);
    }
}

/// A mounted resource is merged in place: where the table of the resource, compiled on its
/// own under the name of the mounting case, is `r`, the parent gives a nested instance the
/// URL and the method that `r` gives it, and the dispatch list of `r` stands in the parent's
/// list, unchanged, after the routes of the cases declared before the mounting case.
pub proof fn lemma_mount_in_place(
    t: RouteTable,
    prefix: Seq<char>,
    scope: Seq<char>,
    cases: Seq<RouteCase>,
    r: RouteTable,
    i: usize,
    inner: CaseInstance,
)
    requires
        represents(t, prefix, scope, cases),
        i < cases.len(),
        resolution(cases[i as int]) is Mount,
        cases[i as int].mounted_resource matches Some(nested) && represents(
            r,
            mount_prefix(cases[i as int].name@),
            cases[i as int].name@,
            nested@,
        ),
    ensures
        url_of(t, CaseInstance { case: i, args: Args::Nested(Box::new(inner)) }) == url_of(
            r,
            inner,
        ),
        method_of(t, CaseInstance { case: i, args: Args::Nested(Box::new(inner)) })
            == method_of(r, inner),
        ({
            let before = set_routes(prefix, scope, cases, i as nat).len() as int;
            &&& before + r.dispatch@.len() <= t.dispatch@.len()
            &&& routes(t.dispatch@).subrange(before, before + r.dispatch@.len()) == routes(
                r.dispatch@,
            )
        }),
{
    let c = cases[i as int];
    let nested = c.mounted_resource->0;
    let inst = CaseInstance { case: i, args: Args::Nested(Box::new(inner)) };
    lemma_table_follows_declarations(t, prefix, scope, cases, inst);
    lemma_table_follows_declarations(r, mount_prefix(c.name@), c.name@, nested@, inner);
    let before = set_routes(prefix, scope, cases, i as nat);
    let upto = set_routes(prefix, scope, cases, (i + 1) as nat);
    assert(upto == before + case_routes(prefix, scope, c));
    assert(case_routes(prefix, scope, c) == routes(r.dispatch@));
    lemma_routes_grow(prefix, scope, cases, (i + 1) as nat, cases.len());
    let all = routes(t.dispatch@);
    assert(all.take(upto.len() as int) == upto);
    assert(all.subrange(before.len() as int, before.len() as int + r.dispatch@.len()) =~= routes(
        r.dispatch@,
    )) by {
        assert forall|k: int| 0 <= k < r.dispatch@.len() implies all[before.len() + k] == routes(
            r.dispatch@,
        )[k] by {
            assert(all.take(upto.len() as int)[before.len() + k] == upto[before.len() + k]);
        }
    }
}

/// In a set without mount points the dispatch list has one route for each case, in
/// declaration order: the case's method, its pattern behind the prefix, and its handler.
pub proof fn lemma_dispatch_in_order(
    prefix: Seq<char>,
    scope: Seq<char>,
    cases: Seq<RouteCase>,
    n: nat,
)
    requires
        n <= cases.len(),
        forall|i: int| 0 <= i < n ==> resolution(#[trigger] cases[i]) is Leaf,
    ensures
        set_routes(prefix, scope, cases, n).len() == n,
        forall|i: int|
            0 <= i < n ==> #[trigger] set_routes(prefix, scope, cases, n)[i] == (Route {
                method: resolution(cases[i])->Leaf_method,
                path: prefix + pattern(parsed(resolution(cases[i])->Leaf_template)),
                handler: handler_name(scope, cases[i].name@),
            }),
    decreases n,
{
    if n > 0 {
        lemma_dispatch_in_order(prefix, scope, cases, (n - 1) as nat);
        assert(resolution(cases[n - 1]) is Leaf);
        let before = set_routes(prefix, scope, cases, (n - 1) as nat);
        let last = case_routes(prefix, scope, cases[n - 1]);
        let all = set_routes(prefix, scope, cases, n);
        assert(all == before + last);
        assert(last.len() == 1);
        assert forall|i: int| 0 <= i < n implies #[trigger] all[i] == (Route {
            method: resolution(cases[i])->Leaf_method,
            path: prefix + pattern(parsed(resolution(cases[i])->Leaf_template)),
            handler: handler_name(scope, cases[i].name@),
        }) by {
            if i < n - 1 {
                assert(all[i] == before[i]);
            } else {
                assert(all[i] == last[0]);
            }
        }
    }
}

} // verus!
