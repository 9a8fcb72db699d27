use axum::body::Body;
use axum::extract::State;
use axum::http::{Request, StatusCode};
use axum::routing::{on, MethodFilter};
use axum::Router;
use enum_router::{
    Args, CaseInstance, Method, QueryField, RouteCase, RouteTable, Shape,
};
use std::sync::Arc;
use tower::ServiceExt;

fn filter(method: Method) -> MethodFilter {
    match method {
        Method::Get => MethodFilter::GET,
        Method::Post => MethodFilter::POST,
        Method::Put => MethodFilter::PUT,
        Method::Patch => MethodFilter::PATCH,
        Method::Delete => MethodFilter::DELETE,
        Method::Head => MethodFilter::HEAD,
        Method::Trace => MethodFilter::TRACE,
    }
}

fn router_of(table: &RouteTable) -> Router {
    let mut router = Router::new();
    for entry in &table.dispatch {
        let handler = entry.handler.clone();
        router = router.route(
            &entry.path,
            on(filter(entry.method), move || {
                let handler = handler.clone();
                async move { handler }
            }),
        );
    }
    router
}

fn request(method: &str, uri: &str) -> Request<Body> {
    Request::builder().method(method).uri(uri).body(Body::empty()).unwrap()
}

fn make_request(app: &Router, method: &str, uri: &str) -> StatusCode {
    let runtime = tokio::runtime::Builder::new_current_thread().build().unwrap();
    runtime.block_on(async { app.clone().oneshot(request(method, uri)).await.unwrap().status() })
}

fn unit(case: usize) -> CaseInstance {
    CaseInstance { case, args: Args::Unit }
}

fn abc(value: Option<u8>) -> CaseInstance {
    let field = QueryField { name: "abc".to_string(), value: value.map(|v| v.to_string()) };
    CaseInstance { case: 3, args: Args::Query(vec![field]) }
}

fn routes() -> Vec<RouteCase> {
    vec![
        RouteCase::explicit("Index", Shape::Unit, Method::Get, "/"),
        RouteCase::explicit("LoginForm", Shape::Unit, Method::Get, "/login"),
        RouteCase::explicit("Login", Shape::Unit, Method::Post, "/login"),
        RouteCase::explicit("Abc", Shape::query_record(), Method::Get, "/abc"),
        RouteCase::explicit("Xyz", Shape::positional(1), Method::Get, "/xyz/{xyz}"),
    ]
}

fn sessions() -> Vec<RouteCase> {
    vec![
        RouteCase::conventional("Index", Shape::Unit),
        RouteCase::conventional("New", Shape::Unit),
        RouteCase::conventional("Create", Shape::Unit),
        RouteCase::conventional("Edit", Shape::positional(1)),
        RouteCase::conventional("Update", Shape::positional(1)),
    ]
}

#[test]
fn it_works() {
    let table = RouteTable::compile(&routes()).unwrap();
    let app = router_of(&table);

    assert_eq!(StatusCode::OK, make_request(&app, "GET", "/"));
    assert_eq!(StatusCode::OK, make_request(&app, "GET", "/login"));
    assert_eq!(StatusCode::OK, make_request(&app, "POST", "/login"));
    assert_eq!(StatusCode::NOT_FOUND, make_request(&app, "GET", "/nope"));
    assert_eq!(StatusCode::OK, make_request(&app, "GET", "/abc"));
    assert_eq!(StatusCode::OK, make_request(&app, "GET", "/abc?abc=123"));

    assert_eq!("/abc?abc=123", table.to_url(&abc(Some(123))).unwrap());
    assert_eq!("/abc", table.to_url(&abc(None)).unwrap());
}

#[test]
fn resource_routing_works() {
    let cases = vec![
        RouteCase::explicit("Index", Shape::Unit, Method::Get, "/"),
        RouteCase::mount("Sessions", sessions()),
    ];
    let table = RouteTable::compile(&cases).unwrap();
    let resource = RouteTable::compile_resource("Sessions", &sessions()).unwrap();

    let url = table.to_url(&unit(0)).unwrap();
    assert_eq!(url, "/");

    let url = resource.to_url(&unit(0)).unwrap();
    assert_eq!(url, "/sessions");
    let url = resource.to_url(&unit(1)).unwrap();

    assert_eq!(url, "/sessions/new");

    let edit = CaseInstance { case: 3, args: Args::Positional(vec![1.to_string()]) };
    let url = resource.to_url(&edit).unwrap();
    assert_eq!(url, "/sessions/1/edit");

    let app = router_of(&table);
    assert_eq!(StatusCode::OK, make_request(&app, "GET", "/"));
    assert_eq!(StatusCode::OK, make_request(&app, "GET", "/sessions"));
    assert_eq!(StatusCode::OK, make_request(&app, "GET", "/sessions/new"));
    assert_eq!(StatusCode::OK, make_request(&app, "GET", "/sessions/1/edit"));
    assert_eq!(StatusCode::OK, make_request(&app, "PATCH", "/sessions/1"));
    assert_eq!(StatusCode::OK, make_request(&app, "POST", "/sessions"));
}

#[test]
fn state_works() {
    struct AppState {
        #[allow(unused)]
        a: String,
    }

    let cases = vec![RouteCase::explicit("Index", Shape::Unit, Method::Get, "/")];
    let table = RouteTable::compile(&cases).unwrap();

    async fn index(State(_s): State<Arc<AppState>>) -> &'static str {
        "index"
    }

    let mut router: Router<Arc<AppState>> = Router::new();
    for entry in &table.dispatch {
        assert_eq!(entry.handler, "index");
        router = router.route(&entry.path, on(filter(entry.method), index));
    }
    let app = router.with_state(Arc::new(AppState { a: "".into() }));

    assert_eq!(StatusCode::OK, make_request(&app, "GET", "/"));
}

#[test]
fn requests_reach_the_handler_named_in_the_table() {
    let cases = vec![
        RouteCase::explicit("Index", Shape::Unit, Method::Get, "/"),
        RouteCase::mount("Sessions", sessions()),
        RouteCase::explicit("Xyz", Shape::positional(1), Method::Get, "/xyz/:xyz"),
    ];
    let table = RouteTable::compile(&cases).unwrap();
    let app = router_of(&table);
    let runtime = tokio::runtime::Builder::new_current_thread().build().unwrap();
    let body_of = |method: &str, uri: &str| {
        runtime.block_on(async {
            let response = app.clone().oneshot(request(method, uri)).await.unwrap();
            assert_eq!(response.status(), StatusCode::OK);
            let bytes = axum::body::to_bytes(response.into_body(), 1024).await.unwrap();
            String::from_utf8(bytes.to_vec()).unwrap()
        })
    };
    assert_eq!(body_of("GET", "/"), "index");
    assert_eq!(body_of("PATCH", "/sessions/9"), "Sessions::update");
    assert_eq!(body_of("GET", "/sessions/9/edit"), "Sessions::edit");
    assert_eq!(body_of("GET", "/xyz/abc"), "xyz");
    assert_eq!(StatusCode::METHOD_NOT_ALLOWED, make_request(&app, "DELETE", "/sessions/9"));
    assert_eq!(StatusCode::NOT_FOUND, make_request(&app, "GET", "/xyz"));
}
