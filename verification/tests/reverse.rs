use enum_router::{
    CompileError, ErrorKind, Method, ReverseTable, RouteCase, RouteTable, Shape,
};

fn literal_routes() -> Vec<RouteCase> {
    vec![
        RouteCase::explicit("Root", Shape::Unit, Method::Get, "/"),
        RouteCase::explicit("Todos", Shape::Unit, Method::Get, "/todos"),
        RouteCase::explicit("ShowTodo", Shape::positional(1), Method::Get, "/todos/{}"),
        RouteCase::explicit("NotFound", Shape::Unit, Method::Get, "/404"),
        RouteCase::explicit("About", Shape::Unit, Method::Get, "/about"),
    ]
}

fn reverse_of(cases: &Vec<RouteCase>) -> Result<ReverseTable, CompileError> {
    ReverseTable::build(&RouteTable::compile(cases).unwrap())
}

#[test]
fn every_literal_template_resolves_to_its_case() {
    let cases = literal_routes();
    let reverse = reverse_of(&cases).unwrap();
    for (i, case) in cases.iter().enumerate() {
        if case.shape == Shape::Unit {
            let template = case.declared_template.clone().unwrap();
            assert_eq!(reverse.resolve(&template), i);
        }
    }
}

#[test]
fn unmatched_input_resolves_to_the_fallback() {
    let reverse = reverse_of(&literal_routes()).unwrap();
    assert_eq!(reverse.fallback, 3);
    assert_eq!(reverse.resolve("/nope"), 3);
    assert_eq!(reverse.resolve(""), 3);
    assert_eq!(reverse.resolve("/todos/"), 3);
    assert_eq!(reverse.resolve("/Todos"), 3);
}

#[test]
fn templated_paths_are_not_parsed() {
    let reverse = reverse_of(&literal_routes()).unwrap();
    assert_eq!(reverse.resolve("/todos/1"), 3);
    assert_eq!(reverse.resolve("/todos/{}"), 3);
    assert_eq!(reverse.literals[2], None);
}

#[test]
fn literal_urls_are_kept_by_case_index() {
    let reverse = reverse_of(&literal_routes()).unwrap();
    assert_eq!(
        reverse.literals,
        vec![
            Some("/".to_string()),
            Some("/todos".to_string()),
            None,
            Some("/404".to_string()),
            Some("/about".to_string()),
        ]
    );
}

#[test]
fn first_declared_wins_among_equal_templates() {
    let cases = vec![
        RouteCase::explicit("A", Shape::Unit, Method::Get, "/same"),
        RouteCase::explicit("B", Shape::Unit, Method::Post, "/same"),
        RouteCase::explicit("NotFound", Shape::Unit, Method::Get, "/404"),
    ];
    let reverse = reverse_of(&cases).unwrap();
    assert_eq!(reverse.resolve("/same"), 0);
}

#[test]
fn first_fallback_is_the_fallback() {
    let cases = vec![
        RouteCase::explicit("A", Shape::Unit, Method::Get, "/a"),
        RouteCase::explicit("Missing", Shape::Unit, Method::Get, "/errors/404"),
        RouteCase::explicit("NotFound", Shape::Unit, Method::Get, "/404"),
    ];
    let reverse = reverse_of(&cases).unwrap();
    assert_eq!(reverse.fallback, 1);
    assert_eq!(reverse.resolve("/404"), 2);
    assert_eq!(reverse.resolve("/zzz"), 1);
}

#[test]
fn no_fallback_is_a_fault() {
    let cases = vec![
        RouteCase::explicit("Root", Shape::Unit, Method::Get, "/"),
        RouteCase::explicit("Almost", Shape::Unit, Method::Get, "/4040"),
        RouteCase::explicit("Slot", Shape::positional(1), Method::Get, "/{}/404"),
    ];
    assert_eq!(
        reverse_of(&cases),
        Err(CompileError { path: vec![], kind: ErrorKind::MissingFallback })
    );
    assert_eq!(
        reverse_of(&vec![]),
        Err(CompileError { path: vec![], kind: ErrorKind::MissingFallback })
    );
}

#[test]
fn reverse_lookup_of_a_resource_uses_its_prefix() {
    let cases = vec![
        RouteCase::conventional("Index", Shape::Unit),
        RouteCase::conventional("New", Shape::Unit),
        RouteCase::explicit("Missing", Shape::Unit, Method::Get, "/404"),
    ];
    let table = RouteTable::compile_resource("Sessions", &cases).unwrap();
    let reverse = ReverseTable::build(&table).unwrap();
    assert_eq!(reverse.resolve("/sessions"), 0);
    assert_eq!(reverse.resolve("/sessions/new"), 1);
    assert_eq!(reverse.resolve("/sessions/404"), 2);
    assert_eq!(reverse.resolve("/new"), 2);
}
