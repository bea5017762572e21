//! A minimal HTTP/1.1 request pipeline: wire-format parsing and
//! serialization, URL pattern matching with captured path parameters, an
//! ordered short-circuiting middleware chain ending in a router, and the
//! per-connection keep-alive decision. The host program owns the sockets
//! and threads; it hands each request's head and body in and writes the
//! returned bytes out.

pub mod errors;
pub mod http_context;
pub mod http_request;
pub mod http_response;
pub mod http_server;
pub mod middlewares;
pub mod strmap;
pub mod strutil;
pub mod url_matcher;
