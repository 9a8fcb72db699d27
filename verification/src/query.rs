//! The query string of a record of optional fields.
use crate::escape::{percent_encode, percent_encoded};
use crate::text::{join, lemma_join_step, push_char};
use vstd::prelude::*;
use vstd::string::StringExecFns;
use vstd::utf8::encode_utf8;

verus! {

/// One named field of a record, with its value if it has one.
#[derive(Debug, Clone, PartialEq, Eq)]
pub struct QueryField {
    pub name: String,
    pub value: Option<String>,
}

/// The mathematical value of a `QueryField`.
pub struct FieldView {
    pub name: Seq<char>,
    pub value: Option<Seq<char>>,
}

impl View for QueryField {
    type V = FieldView;

    open spec fn view(&self) -> FieldView {
        FieldView {
            name: self.name@,
            value: match self.value {
                Some(v) => Some(v@),
                None => None,
            },
        }
    }
}

/// The values of a list of fields, in order.
pub open spec fn field_views(fields: Seq<QueryField>) -> Seq<FieldView> {
    fields.map_values(|f: QueryField| f@)
}

/// `name=value` for each field that has a value, in the order of the fields, the value
/// percent-encoded.
pub open spec fn present_pairs(fields: Seq<FieldView>) -> Seq<Seq<char>>
    decreases fields.len(),
{
    if fields.len() == 0 {
        Seq::empty()
    } else {
        let before = present_pairs(fields.drop_last());
        match fields.last().value {
            Some(v) => before.push(
                fields.last().name + seq!['='] + percent_encoded(encode_utf8(v)),
            ),
            None => before,
        }
    }
}

/// The query string: the present fields as `name=value`, joined by `&`. Values are written
/// percent-encoded, so that a query parser reads each of them back as it was given.
pub open spec fn encoded(fields: Seq<FieldView>) -> Seq<char> {
    join(present_pairs(fields), '&')
}

impl QueryField {
    /// A field with the value `value`.
    pub fn literal(name: &str, value: &str) -> (f: QueryField)
        ensures
            f@ == (FieldView { name: name@, value: Some(value@) }),
    {
        QueryField { name: name.to_owned(), value: Some(value.to_owned()) }
    }

    /// A field without a value.
    pub fn absent(name: &str) -> (f: QueryField)
        ensures
            f@ == (FieldView { name: name@, value: None }),
    {
        QueryField { name: name.to_owned(), value: None }
    }
}

/// Serializes the fields that have a value as `name=value`, joined by `&`, in the order given,
/// each value percent-encoded. Fields without a value are left out; if none has one the result
/// is empty.
pub fn encode(fields: &Vec<QueryField>) -> (r: String)
    ensures
        r@ == encoded(field_views(fields@)),
{
    let ghost views = field_views(fields@);
    let mut out = String::new();
    let mut any = false;
    let mut i: usize = 0;
    while i < fields.len()
        invariant
            i <= fields.len(),
            views == field_views(fields@),
            any == (present_pairs(views.take(i as int)).len() > 0),
            out@ == encoded(views.take(i as int)),
        decreases fields.len() - i,
    {
        let ghost before = present_pairs(views.take(i as int));
        proof {
            assert(views.take(i + 1).drop_last() == views.take(i as int));
            assert(views[i as int] == fields[i as int]@);
        }
        match &fields[i].value {
            Some(v) => {
                if any {
                    push_char(&mut out, '&');
                }
                out.append(fields[i].name.as_str());
                push_char(&mut out, '=');
                let escaped = percent_encode(v.as_str());
                out.append(escaped.as_str());
                any = true;
                proof {
                    let pair = fields[i as int].name@ + seq!['='] + percent_encoded(
                        encode_utf8(v@),
                    );
                    let after = before.push(pair);
                    assert(present_pairs(views.take(i + 1)) == after);
                    lemma_join_step(after, '&', before.len() as int);
                    assert(after.take(before.len() as int) == before);
                    assert(after.take(before.len() as int + 1) == after);
                    assert(out@ =~= join(after, '&'));
                }
            },
            None => {},
        }
        i += 1;
    }
    proof {
        assert(views.take(views.len() as int) == views);
    }
    out
}

/// A record without any present value encodes to the empty string.
pub proof fn lemma_encoded_all_absent(fields: Seq<FieldView>)
    requires
        forall|i: int| 0 <= i < fields.len() ==> fields[i].value is None,
    ensures
        present_pairs(fields).len() == 0,
        encoded(fields).len() == 0,
    decreases fields.len(),
{
    if fields.len() > 0 {
        lemma_encoded_all_absent(fields.drop_last());
    }
}

} // verus!
