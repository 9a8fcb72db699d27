//! Reverse lookup: from a literal URL back to the case without data that has it.
use crate::laws::lemma_unit_url;
use crate::resolve::{resolution, ErrorKind, RouteCase};
use crate::table::{represents, CompileError, Fault, RouteTable, Target};
use crate::template::{Piece, Token};
use crate::text::same_text;
use crate::url::{url_of, Args, CaseInstance};
use vstd::prelude::*;

verus! {

/// The table of the reverse lookup: for each case of a route table its literal URL, if it has
/// one, and the case to fall back on.
#[derive(Debug, PartialEq, Eq)]
pub struct ReverseTable {
    /// By case index: the URL of the case if it takes no data, else nothing.
    pub literals: Vec<Option<String>>,
    /// The index of the case that stands for every URL without a case of its own.
    pub fallback: usize,
}

/// The last segment of the template of a fallback case.
pub open spec fn not_found_marker() -> Seq<char> {
    "404"@
}

/// The instance of case `i` without data.
pub open spec fn unit_instance(i: int) -> CaseInstance {
    CaseInstance { case: i as usize, args: Args::Unit }
}

/// The literal URLs of the first `n` cases of a table, by case index.
pub open spec fn literal_urls(t: RouteTable, n: nat) -> Seq<Option<Seq<char>>> {
    Seq::new(n, |i: int| url_of(t, unit_instance(i)))
}

/// Whether case `i` is designated as fallback: it has a literal URL, and its template ends in
/// the not-found marker.
pub open spec fn is_fallback(t: RouteTable, i: int) -> bool {
    &&& 0 <= i < t.entries@.len()
    &&& url_of(t, unit_instance(i)) is Some
    &&& t.entries@[i].target matches Target::Leaf { method, template, form }
    &&& template@.len() > 0
    &&& template@.last() == Piece::Literal(not_found_marker())
}

/// The first fallback among the first `n` cases.
pub open spec fn first_fallback(t: RouteTable, n: nat) -> Option<int>
    decreases n,
{
    if n == 0 {
        None
    } else {
        match first_fallback(t, (n - 1) as nat) {
            Some(i) => Some(i),
            None => if is_fallback(t, n - 1) {
                Some(n - 1)
            } else {
                None
            },
        }
    }
}

/// The first of the first `n` cases whose literal URL is `input`.
pub open spec fn first_match(urls: Seq<Option<Seq<char>>>, input: Seq<char>, n: nat) -> Option<
    int,
>
    decreases n,
{
    if n == 0 || n > urls.len() {
        None
    } else {
        match first_match(urls, input, (n - 1) as nat) {
            Some(i) => Some(i),
            None => if urls[n - 1] == Some(input) {
                Some(n - 1)
            } else {
                None
            },
        }
    }
}

/// The case that a URL resolves to: the first case with this literal URL, else the fallback.
pub open spec fn lookup(urls: Seq<Option<Seq<char>>>, fallback: int, input: Seq<char>) -> int {
    match first_match(urls, input, urls.len()) {
        Some(i) => i,
        None => fallback,
    }
}

impl ReverseTable {
    /// The literal URLs, by case index.
    pub open spec fn urls(self) -> Seq<Option<Seq<char>>> {
        self.literals@.map_values(
            |u: Option<String>|
                match u {
                    Some(s) => Some(s@),
                    None => None,
                },
        )
    }

    /// Whether this is the reverse table of `t`.
    pub open spec fn reverses(self, t: RouteTable) -> bool {
        &&& self.urls() == literal_urls(t, t.entries@.len())
        &&& first_fallback(t, t.entries@.len()) == Some(self.fallback as int)
    }

    /// Builds the reverse table of a route table. Fails exactly when no case is designated as
    /// fallback.
    pub fn build(table: &RouteTable) -> (r: Result<ReverseTable, CompileError>)
        ensures
            match first_fallback(*table, table.entries@.len()) {
                Some(_) => r matches Ok(rt) && rt.reverses(*table),
                None => r matches Err(e) && e@ == (Fault {
                    path: Seq::empty(),
                    kind: ErrorKind::MissingFallback,
                }),
            },
    {
        let mut literals: Vec<Option<String>> = Vec::new();
        let mut fallback: Option<usize> = None;
        let mut i: usize = 0;
        while i < table.entries.len()
            invariant
                i <= table.entries.len(),
                literals@.len() == i,
                forall|k: int|
                    0 <= k < i ==> match url_of(*table, unit_instance(k)) {
                        Some(u) => (#[trigger] literals@[k]) matches Some(s) && s@ == u,
                        None => literals@[k] is None,
                    },
                match first_fallback(*table, i as nat) {
                    Some(k) => fallback == Some(k as usize) && 0 <= k < i,
                    None => fallback is None,
                },
            decreases table.entries.len() - i,
        {
            let url = table.to_url(&CaseInstance { case: i, args: Args::Unit });
            if fallback.is_none() && url.is_some() && ends_in_marker(table, i) {
                fallback = Some(i);
            }
            literals.push(url);
            i += 1;
        }
        match fallback {
            Some(fallback) => {
                let rt = ReverseTable { literals, fallback };
                proof {
                    assert(rt.urls() =~= literal_urls(*table, table.entries@.len()));
                }
                Ok(rt)
            },
            None => {
                let e = CompileError { path: Vec::new(), kind: ErrorKind::MissingFallback };
                proof {
                    assert(e@.path =~= Seq::<int>::empty());
                }
                Err(e)
            },
        }
    }

    /// The case that `input` resolves to: the first case whose literal URL is exactly `input`,
    /// else the fallback.
    pub fn resolve(&self, input: &str) -> (r: usize)
        ensures
            r == lookup(self.urls(), self.fallback as int, input@),
    {
        let mut i: usize = 0;
        while i < self.literals.len()
            invariant
                i <= self.literals.len(),
                first_match(self.urls(), input@, i as nat) is None,
            decreases self.literals.len() - i,
        {
            let hit = match &self.literals[i] {
                Some(url) => same_text(url.as_str(), input),
                None => false,
            };
            proof {
                assert(self.urls()[i as int] == Some(input@) <==> hit);
            }
            if hit {
                proof {
                    lemma_match_persists(
                        self.urls(),
                        input@,
                        (i + 1) as nat,
                        self.urls().len(),
                    );
                }
                return i;
            }
            i += 1;
        }
        self.fallback
    }
}

fn ends_in_marker(table: &RouteTable, i: usize) -> (r: bool)
    requires
        i < table.entries.len(),
    ensures
        r == {
            &&& table.entries@[i as int].target matches Target::Leaf { method, template, form }
            &&& template@.len() > 0
            &&& template@.last() == Piece::Literal(not_found_marker())
        },
{
    match &table.entries[i].target {
        Target::Leaf { method, template, form } => {
            let n = template.tokens.len();
            if n == 0 {
                false
            } else {
                assert(template@.last() == template.tokens@[n - 1]@);
                match &template.tokens[n - 1] {
                    Token::Literal(text) => same_text(text.as_str(), "404"),
                    Token::Placeholder(_) => false,
                }
            }
        },
        Target::Mount(_) => false,
    }
}

/// Once a case matches, it stays the first match.
pub proof fn lemma_match_persists(urls: Seq<Option<Seq<char>>>, input: Seq<char>, m: nat, n: nat)
    requires
        m <= n <= urls.len(),
        first_match(urls, input, m) is Some,
    ensures
        first_match(urls, input, n) == first_match(urls, input, m),
    decreases n - m,
{
    if m < n {
        lemma_match_persists(urls, input, m, (n - 1) as nat);
    }
}

/// No case before the first with a given URL matches it.
pub proof fn lemma_no_earlier_match(urls: Seq<Option<Seq<char>>>, input: Seq<char>, n: nat)
    requires
        n <= urls.len(),
        forall|j: int| 0 <= j < n ==> #[trigger] urls[j] != Some(input),
    ensures
        first_match(urls, input, n) is None,
    decreases n,
{
    if n > 0 {
        lemma_no_earlier_match(urls, input, (n - 1) as nat);
    }
}

/// Round trip: the literal URL of a case resolves to that case, unless an earlier case has
/// the same URL, which then wins.
pub proof fn lemma_round_trip(urls: Seq<Option<Seq<char>>>, fallback: int, i: int)
    requires
        0 <= i < urls.len(),
        urls[i] is Some,
        forall|j: int| 0 <= j < i ==> #[trigger] urls[j] != urls[i],
    ensures
        lookup(urls, fallback, urls[i]->0) == i,
{
    let input = urls[i]->0;
    lemma_no_earlier_match(urls, input, i as nat);
    assert(first_match(urls, input, (i + 1) as nat) == Some(i));
    lemma_match_persists(urls, input, (i + 1) as nat, urls.len());
}

/// Round trip over the declarations: in the reverse table of a compiled set, the template of
/// a case without data, behind the set's prefix, resolves to that case, unless an earlier case
/// has the same literal URL.
pub proof fn lemma_template_resolves(
    rt: ReverseTable,
    t: RouteTable,
    prefix: Seq<char>,
    scope: Seq<char>,
    cases: Seq<RouteCase>,
    i: usize,
)
    requires
        represents(t, prefix, scope, cases),
        rt.reverses(t),
        i < cases.len(),
        cases[i as int].shape is Unit,
        resolution(cases[i as int]) is Leaf,
        forall|j: int|
            0 <= j < i ==> #[trigger] url_of(t, unit_instance(j)) != Some(
                prefix + resolution(cases[i as int])->Leaf_template,
            ),
    ensures
        lookup(
            rt.urls(),
            rt.fallback as int,
            prefix + resolution(cases[i as int])->Leaf_template,
        ) == i,
{
    lemma_unit_url(t, prefix, scope, cases, i);
    let urls = rt.urls();
    assert(urls[i as int] == url_of(t, unit_instance(i as int)));
    assert forall|j: int| 0 <= j < i implies #[trigger] urls[j] != urls[i as int] by {
        assert(urls[j] == url_of(t, unit_instance(j)));
    }
    lemma_round_trip(urls, rt.fallback as int, i as int);
}

} // verus!
