use enum_router::{
    convention_for, resolve, Binding, ErrorKind, Form, Method, PathTemplate, RouteCase, Shape,
    Slot,
};

fn leaf(method: Method, template: &str, form: Form) -> Result<Binding, ErrorKind> {
    Ok(Binding::Leaf { method, template: PathTemplate::parse(template), form })
}

#[test]
fn convention_knows_the_seven_names() {
    assert_eq!(convention_for("Index"), Some((Method::Get, "".to_string())));
    assert_eq!(convention_for("Create"), Some((Method::Post, "".to_string())));
    assert_eq!(convention_for("New"), Some((Method::Get, "/new".to_string())));
    assert_eq!(convention_for("Show"), Some((Method::Get, "/{param}".to_string())));
    assert_eq!(convention_for("Edit"), Some((Method::Get, "/{param}/edit".to_string())));
    assert_eq!(convention_for("Update"), Some((Method::Patch, "/{param}".to_string())));
    assert_eq!(convention_for("Delete"), Some((Method::Delete, "/{param}".to_string())));
}

#[test]
fn convention_ignores_case() {
    assert_eq!(convention_for("index"), Some((Method::Get, "".to_string())));
    assert_eq!(convention_for("SHOW"), Some((Method::Get, "/{param}".to_string())));
    assert_eq!(convention_for("uPdAtE"), Some((Method::Patch, "/{param}".to_string())));
}

#[test]
fn convention_knows_no_other_name() {
    assert_eq!(convention_for("Destroy"), None);
    assert_eq!(convention_for(""), None);
    assert_eq!(convention_for("Shows"), None);
    assert_eq!(convention_for("ShowTodo"), None);
}

#[test]
fn show_and_update_default_to_one_placeholder() {
    let show = resolve(&RouteCase::conventional("Show", Shape::positional(1)));
    assert_eq!(show, leaf(Method::Get, "/{param}", Form::Positional));
    let update = resolve(&RouteCase::conventional("Update", Shape::positional(1)));
    assert_eq!(update, leaf(Method::Patch, "/{param}", Form::Positional));
    match (show, update) {
        (
            Ok(Binding::Leaf { template: a, .. }),
            Ok(Binding::Leaf { template: b, .. }),
        ) => {
            assert_eq!(a.placeholders(), 1);
            assert_eq!(b.placeholders(), 1);
            assert_eq!(a, b);
        }
        _ => panic!("both resolve to a leaf"),
    }
}

#[test]
fn explicit_declaration_is_used_as_it_stands() {
    let case = RouteCase::explicit("Index", Shape::Unit, Method::Post, "/somewhere/else");
    assert_eq!(resolve(&case), leaf(Method::Post, "/somewhere/else", Form::Unit));
    let case = RouteCase::explicit("Xyz", Shape::positional(1), Method::Get, "/xyz/{xyz}");
    assert_eq!(resolve(&case), leaf(Method::Get, "/xyz/{xyz}", Form::Positional));
}

#[test]
fn mounted_resource_is_a_mount_point() {
    let case = RouteCase::mount("Sessions", vec![]);
    assert_eq!(resolve(&case), Ok(Binding::Mount));
}

#[test]
fn named_shape_keeps_its_field_names() {
    let shape = Shape::Named(vec!["a".to_string(), "b".to_string()]);
    let case = RouteCase::explicit("Search", shape, Method::Get, "/search");
    assert_eq!(
        resolve(&case),
        leaf(Method::Get, "/search", Form::Named(vec!["a".to_string(), "b".to_string()]))
    );
}

#[test]
fn query_record_takes_no_path_value() {
    let case = RouteCase::explicit("Abc", Shape::query_record(), Method::Get, "/abc");
    assert_eq!(resolve(&case), leaf(Method::Get, "/abc", Form::Query));
}

#[test]
fn unknown_name_without_declaration_is_unsupported() {
    let case = RouteCase::conventional("Destroy", Shape::Unit);
    assert_eq!(resolve(&case), Err(ErrorKind::UnsupportedConvention));
}

#[test]
fn mount_with_declaration_is_conflicting() {
    let mut case = RouteCase::mount("Sessions", vec![]);
    case.declared_method = Some(Method::Get);
    assert_eq!(resolve(&case), Err(ErrorKind::ConflictingDeclaration));
    let mut case = RouteCase::mount("Sessions", vec![]);
    case.declared_template = Some("/s".to_string());
    assert_eq!(resolve(&case), Err(ErrorKind::ConflictingDeclaration));
}

#[test]
fn half_a_declaration_is_unsupported() {
    let mut case = RouteCase::conventional("Index", Shape::Unit);
    case.declared_method = Some(Method::Get);
    assert_eq!(resolve(&case), Err(ErrorKind::UnsupportedDeclaration));
    let mut case = RouteCase::conventional("Index", Shape::Unit);
    case.declared_template = Some("/".to_string());
    assert_eq!(resolve(&case), Err(ErrorKind::UnsupportedDeclaration));
}

#[test]
fn placeholder_count_must_match_the_slots() {
    let case = RouteCase::explicit("Show", Shape::positional(1), Method::Get, "/todos");
    assert_eq!(resolve(&case), Err(ErrorKind::TemplateMismatch));
    let case = RouteCase::explicit("Show", Shape::positional(1), Method::Get, "/a/{}/b/{}");
    assert_eq!(resolve(&case), Err(ErrorKind::TemplateMismatch));
    let case = RouteCase::explicit("Root", Shape::Unit, Method::Get, "/{}");
    assert_eq!(resolve(&case), Err(ErrorKind::TemplateMismatch));
    let case = RouteCase::conventional("Show", Shape::Unit);
    assert_eq!(resolve(&case), Err(ErrorKind::TemplateMismatch));
    let case = RouteCase::conventional("Index", Shape::positional(1));
    assert_eq!(resolve(&case), Err(ErrorKind::TemplateMismatch));
}

#[test]
fn named_fields_never_fill_the_path() {
    let shape = Shape::Named(vec!["id".to_string()]);
    let case = RouteCase::explicit("ShowTodo", shape, Method::Get, "/todos/{}");
    assert_eq!(resolve(&case), Err(ErrorKind::TemplateMismatch));
}

#[test]
fn query_record_with_placeholder_is_a_mismatch() {
    let case = RouteCase::explicit("Abc", Shape::query_record(), Method::Get, "/abc/{}");
    assert_eq!(resolve(&case), Err(ErrorKind::TemplateMismatch));
}

#[test]
fn query_mark_needs_a_single_slot() {
    let shape = Shape::Positional(vec![Slot { query: true }, Slot { query: false }]);
    let case = RouteCase::explicit("Abc", shape, Method::Get, "/abc/{}");
    assert_eq!(resolve(&case), Err(ErrorKind::InvalidQueryField));
    let shape = Shape::Positional(vec![Slot { query: false }, Slot { query: true }]);
    let case = RouteCase::explicit("Abc", shape, Method::Get, "/abc/{}/{}");
    assert_eq!(resolve(&case), Err(ErrorKind::InvalidQueryField));
}

#[test]
fn declaration_faults_come_before_shape_faults() {
    let shape = Shape::Positional(vec![Slot { query: true }, Slot { query: true }]);
    let case = RouteCase::conventional("Destroy", shape);
    assert_eq!(resolve(&case), Err(ErrorKind::UnsupportedConvention));
}

#[test]
fn method_names_round_trip() {
    let all = [
        (Method::Get, "get", "GET"),
        (Method::Post, "post", "POST"),
        (Method::Put, "put", "PUT"),
        (Method::Patch, "patch", "PATCH"),
        (Method::Delete, "delete", "DELETE"),
        (Method::Head, "head", "HEAD"),
        (Method::Trace, "trace", "TRACE"),
    ];
    for (method, name, verb) in all {
        assert_eq!(method.name(), name);
        assert_eq!(method.verb(), verb);
        assert_eq!(Method::from_name(name), Some(method));
    }
}

#[test]
fn other_texts_are_no_method() {
    assert_eq!(Method::from_name("GET"), None);
    assert_eq!(Method::from_name("router"), None);
    assert_eq!(Method::from_name("resource"), None);
    assert_eq!(Method::from_name(""), None);
    assert_eq!(Method::from_name("options"), None);
}
