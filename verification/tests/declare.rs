use enum_router::{declare, resolve, Attribute, ErrorKind, Method, RouteCase, Shape};

fn attr(name: Option<&str>, argument: Option<&str>) -> Attribute {
    Attribute { name: name.map(|s| s.to_string()), argument: argument.map(|s| s.to_string()) }
}

#[test]
fn case_without_attributes_declares_nothing() {
    assert_eq!(
        declare("Index", Shape::Unit, &vec![]),
        Ok(RouteCase::conventional("Index", Shape::Unit))
    );
}

#[test]
fn method_attribute_declares_a_route() {
    let attrs = vec![attr(Some("get"), Some("/login"))];
    assert_eq!(
        declare("LoginForm", Shape::Unit, &attrs),
        Ok(RouteCase::explicit("LoginForm", Shape::Unit, Method::Get, "/login"))
    );
    let attrs = vec![attr(Some("patch"), Some("/x/{id}"))];
    assert_eq!(
        declare("Update", Shape::positional(1), &attrs),
        Ok(RouteCase::explicit("Update", Shape::positional(1), Method::Patch, "/x/{id}"))
    );
}

#[test]
fn marker_on_a_slot_declares_a_mount() {
    for marker in ["router", "resource"] {
        let attrs = vec![attr(Some(marker), None)];
        assert_eq!(
            declare("Sessions", Shape::positional(1), &attrs),
            Ok(RouteCase::mount("Sessions", vec![]))
        );
    }
}

#[test]
fn other_attributes_are_passed_over() {
    let attrs = vec![
        attr(None, None),
        attr(None, Some("text")),
        attr(Some("allow"), None),
        attr(Some("post"), Some("/a")),
    ];
    assert_eq!(
        declare("A", Shape::Unit, &attrs),
        Ok(RouteCase::explicit("A", Shape::Unit, Method::Post, "/a"))
    );
    let attrs = vec![attr(Some("allow"), None), attr(Some("get"), Some("/b/{}"))];
    assert_eq!(
        declare("B", Shape::positional(1), &attrs),
        Ok(RouteCase::explicit("B", Shape::positional(1), Method::Get, "/b/{}"))
    );
    let attrs = vec![attr(Some("allow"), None), attr(Some("router"), None)];
    assert_eq!(declare("C", Shape::positional(1), &attrs), Ok(RouteCase::mount("C", vec![])));
}

#[test]
fn first_route_attribute_decides_among_routes() {
    let attrs = vec![attr(Some("post"), Some("/a")), attr(Some("get"), Some("/b"))];
    assert_eq!(
        declare("A", Shape::Unit, &attrs),
        Ok(RouteCase::explicit("A", Shape::Unit, Method::Post, "/a"))
    );
}

#[test]
fn route_and_marker_on_one_case_conflict() {
    let route_first = vec![attr(Some("get"), Some("/x")), attr(Some("resource"), None)];
    let marker_first = vec![attr(Some("resource"), None), attr(Some("get"), Some("/x"))];
    let fitting = vec![attr(Some("get"), Some("/x/{id}")), attr(Some("router"), None)];
    let apart = vec![
        attr(Some("router"), None),
        attr(Some("allow"), None),
        attr(Some("route"), Some("/x")),
    ];
    for attrs in [route_first, marker_first, fitting, apart] {
        assert_eq!(
            declare("Sessions", Shape::positional(1), &attrs),
            Err(ErrorKind::ConflictingDeclaration)
        );
        assert_eq!(
            declare("Sessions", Shape::Unit, &attrs),
            Err(ErrorKind::ConflictingDeclaration)
        );
    }
}

#[test]
fn text_under_another_name_is_a_template_without_method() {
    let attrs = vec![attr(Some("route"), Some("/a"))];
    let case = declare("A", Shape::Unit, &attrs).unwrap();
    assert_eq!(case.declared_method, None);
    assert_eq!(case.declared_template, Some("/a".to_string()));
    assert_eq!(case.mounted_resource, None);
    assert_eq!(resolve(&case), Err(ErrorKind::UnsupportedDeclaration));
}

#[test]
fn marker_with_a_text_is_no_marker() {
    let attrs = vec![attr(Some("router"), Some("/a"))];
    let case = declare("A", Shape::positional(1), &attrs).unwrap();
    assert_eq!(case.mounted_resource, None);
    assert_eq!(case.declared_template, Some("/a".to_string()));
}

#[test]
fn attributes_that_declare_nothing_are_a_fault() {
    let attrs = vec![attr(Some("allow"), None), attr(Some("doc"), None)];
    assert_eq!(declare("Index", Shape::Unit, &attrs), Err(ErrorKind::UnsupportedDeclaration));
    assert_eq!(
        declare("Index", Shape::positional(1), &attrs),
        Err(ErrorKind::UnsupportedDeclaration)
    );
    let attrs = vec![attr(None, Some("/a"))];
    assert_eq!(declare("A", Shape::Unit, &attrs), Err(ErrorKind::UnsupportedDeclaration));
}

#[test]
fn marker_needs_a_slot() {
    let attrs = vec![attr(Some("resource"), None), attr(Some("allow"), None)];
    assert_eq!(declare("Sessions", Shape::Unit, &attrs), Err(ErrorKind::UnsupportedDeclaration));
    let attrs = vec![attr(Some("router"), None)];
    assert_eq!(
        declare("A", Shape::Named(vec!["a".to_string()]), &attrs),
        Err(ErrorKind::UnsupportedDeclaration)
    );
    assert_eq!(declare("A", Shape::positional(0), &attrs), Err(ErrorKind::UnsupportedDeclaration));
}
