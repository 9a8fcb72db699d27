//! The route table compiler: a set of cases becomes a table that gives each instance its URL
//! and method, and the router its dispatch list.
use crate::ident::{pascal_to_snake, snake_case};
use crate::method::Method;
use crate::resolve::{
    form_of, resolution, resolve, Binding, ErrorKind, Form, Resolution, RouteCase,
};
use crate::template::{parsed, pattern, PathTemplate};
use crate::text::{push_char, same_text};
use vstd::prelude::*;
use vstd::string::StringExecFns;

verus! {

/// One line of the dispatch table: requests with this method and a path of this pattern go to
/// this handler.
#[derive(Debug, Clone, PartialEq, Eq)]
pub struct DispatchEntry {
    pub method: Method,
    pub path: String,
    pub handler: String,
}

/// The mathematical value of a `DispatchEntry`.
pub struct Route {
    pub method: Method,
    pub path: Seq<char>,
    pub handler: Seq<char>,
}

impl View for DispatchEntry {
    type V = Route;

    open spec fn view(&self) -> Route {
        Route { method: self.method, path: self.path@, handler: self.handler@ }
    }
}

/// What a compiled case holds.
#[derive(Debug, PartialEq, Eq)]
pub enum Target {
    /// A route of its own.
    Leaf { method: Method, template: PathTemplate, form: Form },
    /// The table of the mounted resource.
    Mount(RouteTable),
}

/// One compiled case.
#[derive(Debug, PartialEq, Eq)]
pub struct Entry {
    pub name: String,
    pub target: Target,
}

/// The compiled artifact. It is built once and not changed afterwards.
#[derive(Debug, PartialEq, Eq)]
pub struct RouteTable {
    /// What stands before every path of this table: empty, or `/` and the resource's name.
    pub prefix: String,
    /// The cases, in declaration order.
    pub entries: Vec<Entry>,
    /// The dispatch list, in declaration order, the routes of a mounted resource in the place
    /// of the case that mounts it.
    pub dispatch: Vec<DispatchEntry>,
}

/// Why and where a set of cases does not compile.
#[derive(Debug, Clone, PartialEq, Eq)]
pub struct CompileError {
    /// The index of the faulty case; for a case of a mounted resource, the index of the
    /// mounting case comes first.
    pub path: Vec<usize>,
    pub kind: ErrorKind,
}

/// The mathematical value of a `CompileError`.
pub struct Fault {
    pub path: Seq<int>,
    pub kind: ErrorKind,
}

impl View for CompileError {
    type V = Fault;

    open spec fn view(&self) -> Fault {
        Fault { path: self.path@.map_values(|i: usize| i as int), kind: self.kind }
    }
}

/// The values of a list of dispatch entries, in order.
pub open spec fn routes(entries: Seq<DispatchEntry>) -> Seq<Route> {
    entries.map_values(|e: DispatchEntry| e@)
}

/// The path prefix of a resource: a slash and the resource's name in snake case.
pub open spec fn mount_prefix(name: Seq<char>) -> Seq<char> {
    seq!['/'] + snake_case(name)
}

/// The handler of a case: its name in snake case, within a resource after the resource's name
/// and `::`.
pub open spec fn handler_name(scope: Seq<char>, name: Seq<char>) -> Seq<char> {
    if scope.len() == 0 {
        snake_case(name)
    } else {
        scope + seq![':', ':'] + snake_case(name)
    }
}

/// The dispatch list of the first `n` cases of a set.
pub open spec fn set_routes(
    prefix: Seq<char>,
    scope: Seq<char>,
    cases: Seq<RouteCase>,
    n: nat,
) -> Seq<Route>
    decreases cases, n,
{
    if n == 0 || n > cases.len() {
        Seq::empty()
    } else {
        set_routes(prefix, scope, cases, (n - 1) as nat) + case_routes(
            prefix,
            scope,
            cases[n - 1],
        )
    }
}

/// What one case adds to the dispatch list: a leaf its own route, with the prefix before the
/// template's pattern; a mount point all routes of the mounted resource, under the prefix made
/// of the mounting case's name.
pub open spec fn case_routes(prefix: Seq<char>, scope: Seq<char>, c: RouteCase) -> Seq<Route>
    decreases c, 0nat,
{
    match resolution(c) {
        Resolution::Leaf { method, template } => seq![
            Route {
                method,
                path: prefix + pattern(parsed(template)),
                handler: handler_name(scope, c.name@),
            },
        ],
        Resolution::Mount => match c.mounted_resource {
            Some(nested) => set_routes(mount_prefix(c.name@), c.name@, nested@, nested@.len()),
            None => Seq::empty(),
        },
        Resolution::Fault(_) => Seq::empty(),
    }
}

/// Whether an earlier case of the set has the name of case `i`.
pub open spec fn is_duplicate(cases: Seq<RouteCase>, i: int) -> bool {
    exists|j: int| 0 <= j < i && (#[trigger] cases[j]).name@ == cases[i].name@
}

/// The first fault among the first `n` cases of a set, in declaration order, the cases of a
/// mounted resource in the place of the case that mounts them.
pub open spec fn first_fault(cases: Seq<RouteCase>, n: nat) -> Option<Fault>
    decreases cases, n,
{
    if n == 0 || n > cases.len() {
        None
    } else {
        match first_fault(cases, (n - 1) as nat) {
            Some(f) => Some(f),
            None => if is_duplicate(cases, n - 1) {
                Some(Fault { path: seq![n - 1], kind: ErrorKind::DuplicateName })
            } else {
                match case_fault(cases[n - 1]) {
                    Some(f) => Some(Fault { path: seq![n - 1] + f.path, kind: f.kind }),
                    None => None,
                }
            },
        }
    }
}

/// The first fault of one case, its name left aside: its own, or that of the resource it
/// mounts.
pub open spec fn case_fault(c: RouteCase) -> Option<Fault>
    decreases c, 0nat,
{
    match resolution(c) {
        Resolution::Fault(kind) => Some(Fault { path: Seq::empty(), kind }),
        Resolution::Leaf { .. } => None,
        Resolution::Mount => match c.mounted_resource {
            Some(nested) => first_fault(nested@, nested@.len()),
            None => None,
        },
    }
}

/// Whether the table is the compiled form of the cases, under this prefix and handler scope.
pub open spec fn represents(
    t: RouteTable,
    prefix: Seq<char>,
    scope: Seq<char>,
    cases: Seq<RouteCase>,
) -> bool
    decreases cases, 0nat,
{
    &&& t.prefix@ == prefix
    &&& t.entries@.len() == cases.len()
    &&& forall|i: int|
        0 <= i < cases.len() ==> entry_represents(#[trigger] t.entries@[i], cases[i])
    &&& routes(t.dispatch@) == set_routes(prefix, scope, cases, cases.len())
}

/// Whether the entry is the compiled form of the case.
pub open spec fn entry_represents(e: Entry, c: RouteCase) -> bool
    decreases c, 0nat,
{
    &&& e.name@ == c.name@
    &&& match resolution(c) {
        Resolution::Leaf { method: m, template: text } => {
            &&& e.target matches Target::Leaf { method, template, form }
            &&& method == m
            &&& template@ == parsed(text)
            &&& form@ == form_of(c.shape)
        },
        Resolution::Mount => match c.mounted_resource {
            Some(nested) => {
                &&& e.target matches Target::Mount(table)
                &&& represents(table, mount_prefix(c.name@), c.name@, nested@)
            },
            None => false,
        },
        Resolution::Fault(_) => false,
    }
}

/// What compiling a set of cases gives: the table that represents them if no case is at fault,
/// else the first fault.
pub open spec fn compiled(
    r: Result<RouteTable, CompileError>,
    prefix: Seq<char>,
    scope: Seq<char>,
    cases: Seq<RouteCase>,
) -> bool {
    match first_fault(cases, cases.len()) {
        None => r matches Ok(t) && represents(t, prefix, scope, cases),
        Some(f) => r matches Err(e) && e@ == f,
    }
}

/// Once a fault is found among the first cases, it stays the first fault of the set.
pub proof fn lemma_fault_persists(cases: Seq<RouteCase>, m: nat, n: nat)
    requires
        m <= n <= cases.len(),
        first_fault(cases, m) is Some,
    ensures
        first_fault(cases, n) == first_fault(cases, m),
    decreases n - m,
{
    if m < n {
        lemma_fault_persists(cases, m, (n - 1) as nat);
    }
}

/// In a set without fault no two cases have the same name.
pub proof fn lemma_names_unique(cases: Seq<RouteCase>, i: int, j: int)
    requires
        first_fault(cases, cases.len()) is None,
        0 <= i < j < cases.len(),
    ensures
        cases[i].name@ != cases[j].name@,
{
    if first_fault(cases, (j + 1) as nat) is Some {
        lemma_fault_persists(cases, (j + 1) as nat, cases.len());
    }
    assert(!is_duplicate(cases, j));
}

fn name_taken(cases: &Vec<RouteCase>, i: usize) -> (r: bool)
    requires
        i < cases.len(),
    ensures
        r == is_duplicate(cases@, i as int),
{
    let mut j: usize = 0;
    while j < i
        invariant
            j <= i < cases.len(),
            forall|k: int| 0 <= k < j ==> (#[trigger] cases@[k]).name@ != cases@[i as int].name@,
        decreases i - j,
    {
        if cases[j].name == cases[i].name {
            assert(cases@[j as int].name@ == cases@[i as int].name@);
            return true;
        }
        j += 1;
    }
    false
}

fn resource_prefix(name: &str) -> (r: String)
    ensures
        r@ == mount_prefix(name@),
{
    let mut r = String::new();
    push_char(&mut r, '/');
    let snake = pascal_to_snake(name);
    r.append(snake.as_str());
    r
}

fn handler_for(scope: &str, name: &str) -> (r: String)
    ensures
        r@ == handler_name(scope@, name@),
{
    let snake = pascal_to_snake(name);
    if scope.is_empty() {
        snake
    } else {
        let mut r = scope.to_owned();
        push_char(&mut r, ':');
        push_char(&mut r, ':');
        r.append(snake.as_str());
        assert(r@ =~= scope@ + seq![':', ':'] + snake_case(name@));
        r
    }
}

fn copy_routes(dispatch: &mut Vec<DispatchEntry>, nested: &Vec<DispatchEntry>)
    ensures
        routes(final(dispatch)@) == routes(old(dispatch)@) + routes(nested@),
{
    let ghost base = routes(dispatch@);
    let mut k: usize = 0;
    while k < nested.len()
        invariant
            k <= nested.len(),
            routes(dispatch@) == base + routes(nested@).take(k as int),
        decreases nested.len() - k,
    {
        let d = &nested[k];
        let entry = DispatchEntry {
            method: d.method,
            path: d.path.clone(),
            handler: d.handler.clone(),
        };
        assert(entry@ == nested@[k as int]@);
        let ghost before = routes(dispatch@);
        dispatch.push(entry);
        proof {
            assert(routes(dispatch@) =~= before.push(entry@));
            assert(routes(nested@).take(k + 1) =~= routes(nested@).take(k as int).push(entry@));
            assert(before.push(entry@) =~= base + routes(nested@).take(k + 1));
        }
        k += 1;
    }
    assert(routes(nested@).take(nested@.len() as int) == routes(nested@));
}

fn fault_here(i: usize, kind: ErrorKind) -> (e: CompileError)
    ensures
        e@ == (Fault { path: seq![i as int], kind }),
{
    let e = CompileError { path: vec![i], kind };
    assert(e@.path =~= seq![i as int]);
    e
}

fn compile_set(prefix: &str, scope: &str, cases: &Vec<RouteCase>) -> (r: Result<
    RouteTable,
    CompileError,
>)
    ensures
        compiled(r, prefix@, scope@, cases@),
    decreases cases,
{
    let mut entries: Vec<Entry> = Vec::new();
    let mut dispatch: Vec<DispatchEntry> = Vec::new();
    let mut i: usize = 0;
    while i < cases.len()
        invariant
            i <= cases.len(),
            first_fault(cases@, i as nat) is None,
            entries@.len() == i,
            forall|k: int| 0 <= k < i ==> entry_represents(#[trigger] entries@[k], cases@[k]),
            routes(dispatch@) == set_routes(prefix@, scope@, cases@, i as nat),
        decreases cases.len() - i,
    {
        let case = &cases[i];
        let ghost done = entries@;
        if name_taken(cases, i) {
            proof {
                lemma_fault_persists(cases@, (i + 1) as nat, cases@.len());
            }
            return Err(fault_here(i, ErrorKind::DuplicateName));
        }
        match resolve(case) {
            Err(kind) => {
                proof {
                    assert(case_fault(*case) == Some(Fault { path: Seq::empty(), kind }));
                    assert(seq![i as int] + Seq::<int>::empty() =~= seq![i as int]);
                    lemma_fault_persists(cases@, (i + 1) as nat, cases@.len());
                }
                return Err(fault_here(i, kind));
            },
            Ok(Binding::Leaf { method, template, form }) => {
                let mut path = prefix.to_owned();
                let pat = template.to_pattern();
                path.append(pat.as_str());
                let handler = handler_for(scope, case.name.as_str());
                dispatch.push(DispatchEntry { method, path, handler });
                entries.push(
                    Entry {
                        name: case.name.clone(),
                        target: Target::Leaf { method, template, form },
                    },
                );
                proof {
                    assert(routes(dispatch@) =~= set_routes(prefix@, scope@, cases@, i as nat)
                        + case_routes(prefix@, scope@, *case));
                }
            },
            Ok(Binding::Mount) => {
                match &case.mounted_resource {
                    Some(nested) => {
                        let inner_prefix = resource_prefix(case.name.as_str());
                        match compile_set(inner_prefix.as_str(), case.name.as_str(), nested) {
                            Err(e) => {
                                let mut e = e;
                                let ghost inner = e@;
                                e.path.insert(0, i);
                                proof {
                                    assert(e@.path =~= seq![i as int] + inner.path);
                                    lemma_fault_persists(
                                        cases@,
                                        (i + 1) as nat,
                                        cases@.len(),
                                    );
                                }
                                return Err(e);
                            },
                            Ok(table) => {
                                proof {
                                    assert(case_routes(prefix@, scope@, *case) == set_routes(
                                        mount_prefix(case.name@),
                                        case.name@,
                                        nested@,
                                        nested@.len(),
                                    ));
                                    assert(set_routes(prefix@, scope@, cases@, (i + 1) as nat)
                                        == set_routes(prefix@, scope@, cases@, i as nat)
                                        + case_routes(prefix@, scope@, *case));
                                }
                                copy_routes(&mut dispatch, &table.dispatch);
                                entries.push(
                                    Entry {
                                        name: case.name.clone(),
                                        target: Target::Mount(table),
                                    },
                                );
                            },
                        }
                    },
                    None => {
                        proof {
                            assert(false);
                        }
                        return Err(fault_here(i, ErrorKind::ConflictingDeclaration));
                    },
                }
            },
        }
        proof {
            assert forall|k: int| 0 <= k < i + 1 implies entry_represents(
                #[trigger] entries@[k],
                cases@[k],
            ) by {
                if k < i {
                    assert(entries@[k] == done[k]);
                }
            }
        }
        i += 1;
    }
    Ok(RouteTable { prefix: prefix.to_owned(), entries, dispatch })
}

/// The first of the first `n` entries with this name.
pub open spec fn first_named(entries: Seq<Entry>, name: Seq<char>, n: nat) -> Option<int>
    decreases n,
{
    if n == 0 || n > entries.len() {
        None
    } else {
        match first_named(entries, name, (n - 1) as nat) {
            Some(i) => Some(i),
            None => if entries[n - 1].name@ == name {
                Some(n - 1)
            } else {
                None
            },
        }
    }
}

/// Once an entry of the name is found, it stays the first.
pub proof fn lemma_named_persists(entries: Seq<Entry>, name: Seq<char>, m: nat, n: nat)
    requires
        m <= n <= entries.len(),
        first_named(entries, name, m) is Some,
    ensures
        first_named(entries, name, n) == first_named(entries, name, m),
    decreases n - m,
{
    if m < n {
        lemma_named_persists(entries, name, m, (n - 1) as nat);
    }
}

impl RouteTable {
    /// The index of the case called `name`, by which its instances are made, if there is
    /// such a case.
    pub fn case_index(&self, name: &str) -> (r: Option<usize>)
        ensures
            match first_named(self.entries@, name@, self.entries@.len()) {
                Some(i) => r == Some(i as usize) && 0 <= i < self.entries@.len(),
                None => r is None,
            },
    {
        let mut i: usize = 0;
        while i < self.entries.len()
            invariant
                i <= self.entries.len(),
                first_named(self.entries@, name@, i as nat) is None,
            decreases self.entries.len() - i,
        {
            if same_text(self.entries[i].name.as_str(), name) {
                proof {
                    lemma_named_persists(
                        self.entries@,
                        name@,
                        (i + 1) as nat,
                        self.entries@.len(),
                    );
                }
                return Some(i);
            }
            i += 1;
        }
        None
    }

    /// Compiles the cases of a router. Templates stand in the dispatch list without a prefix
    /// and handlers by their bare names. Fails with the first fault, if there is one.
    pub fn compile(cases: &Vec<RouteCase>) -> (r: Result<RouteTable, CompileError>)
        ensures
            compiled(r, Seq::empty(), Seq::empty(), cases@),
    {
        proof {
            reveal_strlit("");
            assert(""@ =~= Seq::<char>::empty());
        }
        compile_set("", "", cases)
    }

    /// Compiles the cases of a resource called `name`. Every path gets the prefix `/` and the
    /// name in snake case, and handlers are named within `name`. Fails with the first fault,
    /// if there is one.
    pub fn compile_resource(name: &str, cases: &Vec<RouteCase>) -> (r: Result<
        RouteTable,
        CompileError,
    >)
        ensures
            compiled(r, mount_prefix(name@), name@, cases@),
    {
        let prefix = resource_prefix(name);
        compile_set(prefix.as_str(), name, cases)
    }
}

} // verus!
