use enum_router::{binding_names, url_arm, ErrorKind, Method, RouteCase, Shape, UrlArm};

#[test]
fn bindings_are_numbered_from_zero() {
    assert_eq!(binding_names(0), Vec::<String>::new());
    assert_eq!(binding_names(3), vec!["x0", "x1", "x2"]);
    let many = binding_names(12);
    assert_eq!(many[9], "x9");
    assert_eq!(many[10], "x10");
    assert_eq!(many[11], "x11");
    assert_eq!(binding_names(101)[100], "x100");
}

#[test]
fn unit_case_gives_its_path() {
    let case = RouteCase::explicit("Login", Shape::Unit, Method::Post, "/login");
    assert_eq!(url_arm("", &case), Ok(UrlArm::Literal("/login".to_string())));
    let case = RouteCase::conventional("New", Shape::Unit);
    assert_eq!(url_arm("", &case), Ok(UrlArm::Literal("/new".to_string())));
}

#[test]
fn positional_case_gives_a_format_string() {
    let case = RouteCase::explicit("Xyz", Shape::positional(1), Method::Get, "/xyz/{xyz}");
    assert_eq!(
        url_arm("", &case),
        Ok(UrlArm::Format { format: "/xyz/{}".to_string(), bindings: vec!["x0".to_string()] })
    );
    let case = RouteCase::explicit("Pair", Shape::positional(2), Method::Get, "/a/:a/b/{b}");
    assert_eq!(
        url_arm("", &case),
        Ok(UrlArm::Format {
            format: "/a/{}/b/{}".to_string(),
            bindings: vec!["x0".to_string(), "x1".to_string()],
        })
    );
}

#[test]
fn arms_of_a_resource_carry_its_prefix() {
    let case = RouteCase::conventional("New", Shape::Unit);
    assert_eq!(url_arm("/sessions", &case), Ok(UrlArm::Literal("/sessions/new".to_string())));
    let case = RouteCase::conventional("Index", Shape::Unit);
    assert_eq!(url_arm("/sessions", &case), Ok(UrlArm::Literal("/sessions".to_string())));
    let case = RouteCase::conventional("Edit", Shape::positional(1));
    assert_eq!(
        url_arm("/sessions", &case),
        Ok(UrlArm::Format {
            format: "/sessions/{}/edit".to_string(),
            bindings: vec!["x0".to_string()],
        })
    );
    let case = RouteCase::explicit("Abc", Shape::query_record(), Method::Get, "/abc");
    assert_eq!(url_arm("/sessions", &case), Ok(UrlArm::Query("/sessions/abc".to_string())));
    let case = RouteCase::mount("Keys", vec![]);
    assert_eq!(url_arm("/sessions", &case), Ok(UrlArm::Delegate));
}

#[test]
fn braces_of_a_prefix_are_doubled_in_the_format_string() {
    let case = RouteCase::explicit("Show", Shape::positional(1), Method::Get, "/a{b}/{}");
    assert_eq!(
        url_arm("/{p}", &case),
        Ok(UrlArm::Format {
            format: "/{{p}}/a{{b}}/{}".to_string(),
            bindings: vec!["x0".to_string()],
        })
    );
}

#[test]
fn named_case_gives_its_path_and_fields() {
    let shape = Shape::Named(vec!["q".to_string(), "page".to_string()]);
    let case = RouteCase::explicit("Search", shape, Method::Get, "/search");
    assert_eq!(
        url_arm("", &case),
        Ok(UrlArm::Named {
            path: "/search".to_string(),
            fields: vec!["q".to_string(), "page".to_string()],
        })
    );
    let case = RouteCase::explicit("Bare", Shape::Named(vec![]), Method::Get, "/bare");
    assert_eq!(
        url_arm("/res", &case),
        Ok(UrlArm::Named { path: "/res/bare".to_string(), fields: vec![] })
    );
}

#[test]
fn query_record_case_gives_its_path() {
    let case = RouteCase::explicit("Abc", Shape::query_record(), Method::Get, "/abc");
    assert_eq!(url_arm("", &case), Ok(UrlArm::Query("/abc".to_string())));
}

#[test]
fn mount_point_delegates() {
    let case = RouteCase::mount("Sessions", vec![]);
    assert_eq!(url_arm("", &case), Ok(UrlArm::Delegate));
}

#[test]
fn faulty_case_gives_its_fault() {
    let case = RouteCase::conventional("Destroy", Shape::Unit);
    assert_eq!(url_arm("", &case), Err(ErrorKind::UnsupportedConvention));
    let case = RouteCase::explicit("Show", Shape::Unit, Method::Get, "/{}");
    assert_eq!(url_arm("/p", &case), Err(ErrorKind::TemplateMismatch));
}
