use enum_router::{encode, QueryField};

fn field(name: &str, value: Option<&str>) -> QueryField {
    QueryField { name: name.to_string(), value: value.map(|v| v.to_string()) }
}

#[test]
fn encode_leaves_absent_fields_out() {
    assert_eq!(encode(&vec![field("abc", None)]), "");
    assert_eq!(encode(&vec![field("abc", Some("123"))]), "abc=123");
}

#[test]
fn encode_of_no_fields_is_empty() {
    assert_eq!(encode(&vec![]), "");
    assert_eq!(encode(&vec![field("a", None), field("b", None)]), "");
}

#[test]
fn encode_keeps_declaration_order() {
    let fields = vec![field("z", Some("1")), field("a", Some("2")), field("m", Some("3"))];
    assert_eq!(encode(&fields), "z=1&a=2&m=3");
}

#[test]
fn encode_joins_only_present_fields() {
    let fields =
        vec![field("a", None), field("b", Some("2")), field("c", None), field("d", Some("4"))];
    assert_eq!(encode(&fields), "b=2&d=4");
    let fields = vec![field("a", Some("1")), field("b", None)];
    assert_eq!(encode(&fields), "a=1");
}

#[test]
fn encode_writes_empty_values() {
    assert_eq!(encode(&vec![field("a", Some("")), field("b", Some("x"))]), "a=&b=x");
}

#[test]
fn encode_percent_encodes_values() {
    assert_eq!(encode(&vec![field("q", Some("a b&c"))]), "q=a+b%26c");
    assert_eq!(encode(&vec![field("q", Some("x=1"))]), "q=x%3D1");
    assert_eq!(encode(&vec![field("q", Some("é")), field("r", Some("~-_."))]), "q=%C3%A9&r=~-_.");
}

#[test]
fn literal_field_holds_its_value() {
    let f = QueryField::literal("q", "a b&c");
    assert_eq!(f, field("q", Some("a b&c")));
    let fields = vec![f, QueryField::absent("r"), QueryField::literal("s", "é")];
    assert_eq!(encode(&fields), "q=a+b%26c&s=%C3%A9");
}

#[test]
fn absent_field_has_no_value() {
    assert_eq!(QueryField::absent("abc"), field("abc", None));
}
