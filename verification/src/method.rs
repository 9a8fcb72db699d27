//! The HTTP methods a route can answer to.
use crate::text::same_text;
use vstd::prelude::*;

verus! {

/// An HTTP method.
#[derive(Debug, Clone, Copy, PartialEq, Eq, Structural)]
pub enum Method {
    Get,
    Post,
    Put,
    Patch,
    Delete,
    Head,
    Trace,
}

impl Method {
    /// The lower-case name, as a routing function or a declaration is written.
    pub open spec fn name_text(self) -> Seq<char> {
        match self {
            Method::Get => "get"@,
            Method::Post => "post"@,
            Method::Put => "put"@,
            Method::Patch => "patch"@,
            Method::Delete => "delete"@,
            Method::Head => "head"@,
            Method::Trace => "trace"@,
        }
    }

    /// The upper-case verb, as a request line is written.
    pub open spec fn verb_text(self) -> Seq<char> {
        match self {
            Method::Get => "GET"@,
            Method::Post => "POST"@,
            Method::Put => "PUT"@,
            Method::Patch => "PATCH"@,
            Method::Delete => "DELETE"@,
            Method::Head => "HEAD"@,
            Method::Trace => "TRACE"@,
        }
    }

    /// The method that a lower-case name stands for, if any.
    pub open spec fn named(name: Seq<char>) -> Option<Method> {
        if name == "get"@ {
            Some(Method::Get)
        } else if name == "post"@ {
            Some(Method::Post)
        } else if name == "put"@ {
            Some(Method::Put)
        } else if name == "patch"@ {
            Some(Method::Patch)
        } else if name == "delete"@ {
            Some(Method::Delete)
        } else if name == "head"@ {
            Some(Method::Head)
        } else if name == "trace"@ {
            Some(Method::Trace)
        } else {
            None
        }
    }

    /// The lower-case name of the method.
    pub fn name(&self) -> (r: String)
        ensures
            r@ == self.name_text(),
    {
        match self {
            Method::Get => "get".to_owned(),
            Method::Post => "post".to_owned(),
            Method::Put => "put".to_owned(),
            Method::Patch => "patch".to_owned(),
            Method::Delete => "delete".to_owned(),
            Method::Head => "head".to_owned(),
            Method::Trace => "trace".to_owned(),
        }
    }

    /// The upper-case verb of the method.
    pub fn verb(&self) -> (r: String)
        ensures
            r@ == self.verb_text(),
    {
        match self {
            Method::Get => "GET".to_owned(),
            Method::Post => "POST".to_owned(),
            Method::Put => "PUT".to_owned(),
            Method::Patch => "PATCH".to_owned(),
            Method::Delete => "DELETE".to_owned(),
            Method::Head => "HEAD".to_owned(),
            Method::Trace => "TRACE".to_owned(),
        }
    }

    /// Reads a method from its lower-case name; any other text is no method.
    pub fn from_name(name: &str) -> (r: Option<Method>)
        ensures
            r == Method::named(name@),
    {
        if same_text(name, "get") {
            Some(Method::Get)
        } else if same_text(name, "post") {
            Some(Method::Post)
        } else if same_text(name, "put") {
            Some(Method::Put)
        } else if same_text(name, "patch") {
            Some(Method::Patch)
        } else if same_text(name, "delete") {
            Some(Method::Delete)
        } else if same_text(name, "head") {
            Some(Method::Head)
        } else if same_text(name, "trace") {
            Some(Method::Trace)
        } else {
            None
        }
    }
}

/// Reading the name of a method gives the method back, and a text that reads as a method is
/// that method's name.
pub proof fn lemma_name_round_trip(m: Method, name: Seq<char>)
    ensures
        Method::named(m.name_text()) == Some(m),
        Method::named(name) == Some(m) ==> name == m.name_text(),
{
    reveal_strlit("get");
    reveal_strlit("post");
    reveal_strlit("put");
    reveal_strlit("patch");
    reveal_strlit("delete");
    reveal_strlit("head");
    reveal_strlit("trace");
    assert("get"@.len() == 3 && "put"@.len() == 3 && "post"@.len() == 4 && "head"@.len() == 4);
    assert("patch"@.len() == 5 && "trace"@.len() == 5 && "delete"@.len() == 6);
    assert("get"@[0] == 'g' && "put"@[0] == 'p');
    assert("post"@[0] == 'p' && "head"@[0] == 'h');
    assert("patch"@[0] == 'p' && "trace"@[0] == 't');
}

} // verus!
