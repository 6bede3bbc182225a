//! A small HTTP server core: parsing requests, routing them to handlers by
//! method and path pattern, and encoding responses as HTTP/1.1 bytes.
use vstd::prelude::*;

pub mod application;
pub mod http_header;
pub mod http_method;
pub mod http_request;
pub mod http_response;
pub mod http_route;
pub mod params;
pub mod text;

pub use application::{
    empty_request_response, handler_error_response, route_request, unreadable_request_response,
    Application,
};
pub use http_header::Header;
pub use http_method::Method;
pub use http_request::{parse_headers, parse_query_string, HttpRequest};
pub use http_response::{status_reason, HttpResponse};
pub use http_route::{find_route, Route};
pub use params::ParamMap;

verus! {

} // verus!
