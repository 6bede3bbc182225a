use http_server::{
    empty_request_response, find_route, handler_error_response, route_request,
    unreadable_request_response, Application, HttpRequest, Method, ParamMap, Route,
};

fn route(method: &str, pattern: &str, id: u32) -> Route<u32> {
    Route::new(method.to_string(), pattern.to_string(), id)
}

fn request(method: Method, path: &str) -> HttpRequest {
    HttpRequest::new(method, path.to_string(), Vec::new(), String::new(), ParamMap::new(), ParamMap::new())
}

#[test]
fn matches_method_parses_the_route_method() {
    assert!(route("GET", "/", 0).matches_method(&Method::Get));
    assert!(!route("GET", "/", 0).matches_method(&Method::Post));
    assert!(route("DELETE", "/", 0).matches_method(&Method::Other("DELETE".to_string())));
    assert!(!route("get", "/", 0).matches_method(&Method::Get));
}

#[test]
fn matches_path_literal() {
    let r = route("GET", "/users", 0);
    assert_eq!(r.matches_path("/users").unwrap().len(), 0);
    assert!(r.matches_path("/users/5").is_none());
    assert!(r.matches_path("/people").is_none());
}

#[test]
fn matches_path_ignores_empty_segments() {
    let r = route("GET", "/user", 0);
    assert!(r.matches_path("/user").is_some());
    assert!(r.matches_path("/user/").is_some());
    assert!(r.matches_path("//user//").is_some());
    assert!(r.matches_path("user").is_some());
}

#[test]
fn matches_path_captures_parameters() {
    let r = route("GET", "/location/:id/item/:item", 0);
    let params = r.matches_path("/location/5/item/apple").unwrap();
    assert_eq!(params.len(), 2);
    assert_eq!(params.get("id").unwrap(), "5");
    assert_eq!(params.get("item").unwrap(), "apple");
    assert!(r.matches_path("/location/5/other/apple").is_none());
}

#[test]
fn pattern_matches_itself_capturing_its_own_text() {
    let r = route("GET", "/location/:id", 0);
    let params = r.matches_path("/location/:id").unwrap();
    assert_eq!(params.len(), 1);
    assert_eq!(params.get("id").unwrap(), ":id");
}

#[test]
fn param_segment_captures_even_an_equal_segment() {
    let r = route("GET", "/a/:b/:c", 0);
    let params = r.matches_path("/a/:b/x").unwrap();
    assert_eq!(params.len(), 2);
    assert_eq!(params.get("b").unwrap(), ":b");
    assert_eq!(params.get("c").unwrap(), "x");
}

#[test]
fn repeated_parameter_name_keeps_last() {
    let r = route("GET", "/:x/:x", 0);
    let params = r.matches_path("/a/b").unwrap();
    assert_eq!(params.len(), 1);
    assert_eq!(params.get("x").unwrap(), "b");
}

#[test]
fn find_route_takes_the_first_match() {
    let routes = vec![
        route("POST", "/users", 1),
        route("GET", "/users/:id", 2),
        route("GET", "/users/me", 3),
    ];
    let (r, params) = find_route(&routes, &Method::Get, "/users/me").unwrap();
    assert_eq!(r.handler, 2);
    assert_eq!(params.get("id").unwrap(), "me");
    let (r, _) = find_route(&routes, &Method::Post, "/users").unwrap();
    assert_eq!(r.handler, 1);
}

#[test]
fn find_route_not_found() {
    let routes = vec![route("GET", "/users", 1)];
    assert_eq!(find_route(&routes, &Method::Post, "/users").err().unwrap(), "Route not found");
    assert_eq!(find_route(&routes, &Method::Get, "/other").err().unwrap(), "Route not found");
    let empty: Vec<Route<u32>> = Vec::new();
    assert!(find_route(&empty, &Method::Get, "/").is_err());
}

#[test]
fn route_request_sets_path_params() {
    let routes = vec![route("GET", "/location/:id", 7)];
    let (r, req) = route_request(&routes, request(Method::Get, "/location/42")).ok().unwrap();
    assert_eq!(r.handler, 7);
    assert_eq!(req.path_params().get("id").unwrap(), "42");
    assert_eq!(req.path(), "/location/42");
}

#[test]
fn route_request_answers_404() {
    let routes = vec![route("GET", "/a", 7)];
    let response = route_request(&routes, request(Method::Get, "/b")).err().unwrap();
    assert_eq!(response.status_code, 404);
    assert_eq!(response.body, "Route not found");
    assert!(response.headers.is_empty());
}

#[test]
fn error_responses() {
    let r = handler_error_response("boom");
    assert_eq!(r.status_code, 500);
    assert_eq!(r.body, "handler error: boom");
    let r = empty_request_response();
    assert_eq!(r.status_code, 400);
    assert_eq!(r.body, "empty request");
    let r = unreadable_request_response("eof");
    assert_eq!(r.status_code, 400);
    assert!(r.body.starts_with("Bad Request: the server could not read your request."));
    assert!(r.body.ends_with("Underlying error: eof"));
}

#[test]
fn application_registers_routes_in_order() {
    let mut app: Application<u32> = Application::new();
    app.get("/a".to_string(), 1);
    app.post("/b".to_string(), 2);
    app.put("/c".to_string(), 3);
    let routes = app.routes();
    assert_eq!(routes.len(), 3);
    assert_eq!(routes[0].method, "GET");
    assert_eq!(routes[1].method, "POST");
    assert_eq!(routes[2].method, "PUT");
    assert_eq!(routes[2].pattern, "/c");
    let taken = app.take_routes();
    assert_eq!(taken.len(), 3);
    assert_eq!(app.routes().len(), 0);
}
