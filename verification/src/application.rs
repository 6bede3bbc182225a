//! The routing table of an application and the decisions taken for each
//! connection: which route serves a request, and what is answered when a
//! request cannot be read, matches no route, or its handler fails.
use vstd::prelude::*;

use crate::http_header::Header;
use crate::http_request::{HttpRequest, RequestView};
use crate::http_response::HttpResponse;
use crate::http_method::parsed_method;
use crate::http_route::{find_route, first_match, path_params_of, path_segments, Route};

verus! {

/// An application: the routes registered so far, in registration order.
pub struct Application<H> {
    routes: Vec<Route<H>>,
}

impl<H> View for Application<H> {
    type V = Seq<Route<H>>;

    closed spec fn view(&self) -> Seq<Route<H>> {
        self.routes@
    }
}

/// `after` is `before` with one route added at the end, for `method`,
/// `pattern` and `handler`.
pub open spec fn route_added<H>(
    before: Seq<Route<H>>,
    after: Seq<Route<H>>,
    method: Seq<char>,
    pattern: String,
    handler: H,
) -> bool {
    &&& after.len() == before.len() + 1
    &&& after.drop_last() == before
    &&& after.last().method@ == method
    &&& after.last().pattern == pattern
    &&& after.last().handler == handler
}

impl<H> Application<H> {
    /// An application with no routes.
    pub fn new() -> (a: Self)
        ensures
            a@ == Seq::<Route<H>>::empty(),
    {
        Application { routes: Vec::new() }
    }

    fn add_route(&mut self, method: &str, pattern: String, handler: H)
        ensures
            route_added(old(self)@, final(self)@, method@, pattern, handler),
    {
        let route = Route::new(method.to_owned(), pattern, handler);
        self.routes.push(route);
        assert(self.routes@.drop_last() =~= old(self).routes@);
    }

    /// Registers `handler` for `GET` requests whose path matches `pattern`.
    pub fn get(&mut self, pattern: String, handler: H)
        ensures
            route_added(old(self)@, final(self)@, "GET"@, pattern, handler),
    {
        self.add_route("GET", pattern, handler);
    }

    /// Registers `handler` for `POST` requests whose path matches `pattern`.
    pub fn post(&mut self, pattern: String, handler: H)
        ensures
            route_added(old(self)@, final(self)@, "POST"@, pattern, handler),
    {
        self.add_route("POST", pattern, handler);
    }

    /// Registers `handler` for `PUT` requests whose path matches `pattern`.
    pub fn put(&mut self, pattern: String, handler: H)
        ensures
            route_added(old(self)@, final(self)@, "PUT"@, pattern, handler),
    {
        self.add_route("PUT", pattern, handler);
    }

    /// The routes registered, in registration order.
    pub fn routes(&self) -> (r: &[Route<H>])
        ensures
            r@ == self@,
    {
        self.routes.as_slice()
    }

    /// Hands over the routes registered, leaving the application with none
    /// (what starting the server does with them).
    pub fn take_routes(&mut self) -> (r: Vec<Route<H>>)
        ensures
            r@ == old(self)@,
            final(self)@ == Seq::<Route<H>>::empty(),
    {
        let mut routes: Vec<Route<H>> = Vec::new();
        std::mem::swap(&mut routes, &mut self.routes);
        routes
    }
}

/// A response with the given status code, no headers and the given body.
fn plain_response(status_code: u16, body: String) -> (r: HttpResponse)
    ensures
        r.status_code == status_code,
        r.headers@ == Seq::<Header>::empty(),
        r.body@ == body@,
{
    let mut response = HttpResponse::new(status_code, Vec::new(), String::new());
    response.send(body.as_str());
    response
}

/// Routes `request` to the first route in `routes` that serves it.
///
/// On a match, returns the route and the request carrying the path
/// parameters that the route's pattern captured; otherwise returns the
/// `404` response with body `Route not found`.
pub fn route_request<'a, H>(routes: &'a [Route<H>], request: HttpRequest) -> (r: Result<
    (&'a Route<H>, HttpRequest),
    HttpResponse,
>)
    ensures
        r is Ok <==> first_match(routes@, request@.method, request@.path) is Some,
        r matches Ok((route, routed)) ==> {
            &&& *route == routes@[first_match(routes@, request@.method, request@.path).unwrap()]
            &&& parsed_method(route.method@, request@.method)
            &&& path_segments(route.pattern@).len() == path_segments(request@.path).len()
            &&& routed@ == (RequestView {
                path_params: path_params_of(route.pattern@, request@.path).unwrap(),
                ..request@
            })
        },
        r matches Err(response) ==> {
            &&& response.status_code == 404
            &&& response.headers@ == Seq::<Header>::empty()
            &&& response.body@ == "Route not found"@
        },
{
    let method = request.method();
    let path = request.path();
    match find_route(routes, &method, path.as_str()) {
        Ok((route, params)) => {
            let mut routed = request;
            routed.set_path_params(params);
            Ok((route, routed))
        },
        Err(error) => Err(plain_response(404, error)),
    }
}

/// The response sent when a route's handler failed: `500` with body
/// `handler error: ` followed by `message`.
pub fn handler_error_response(message: &str) -> (r: HttpResponse)
    ensures
        r.status_code == 500,
        r.headers@ == Seq::<Header>::empty(),
        r.body@ == "handler error: "@ + message@,
{
    let mut body = "handler error: ".to_owned();
    body.append(message);
    plain_response(500, body)
}

/// The response sent when a connection closed without sending a request:
/// `400` with body `empty request`.
pub fn empty_request_response() -> (r: HttpResponse)
    ensures
        r.status_code == 400,
        r.headers@ == Seq::<Header>::empty(),
        r.body@ == "empty request"@,
{
    plain_response(400, "empty request".to_owned())
}

/// The response sent when a request could not be read: `400` with a body
/// that explains so and ends with `error`, the underlying error.
pub fn unreadable_request_response(error: &str) -> (r: HttpResponse)
    ensures
        r.status_code == 400,
        r.headers@ == Seq::<Header>::empty(),
        r.body@ == "Bad Request: the server could not read your request. This usually means the request line or headers were malformed, or the connection closed unexpectedly while reading the body. Underlying error: "@
            + error@,
{
    let mut body =
        "Bad Request: the server could not read your request. This usually means the request line or headers were malformed, or the connection closed unexpectedly while reading the body. Underlying error: ".to_owned();
    body.append(error);
    plain_response(400, body)
}

} // verus!
