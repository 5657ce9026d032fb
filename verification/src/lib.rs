//! A minimal HTTP routing and dispatch layer.
//!
//! A [`router::Router`] owns a table of routes (method and path pattern to
//! handler), a tree of mounted sub-routers keyed by literal path prefixes, an
//! ordered middleware chain, and optional fallback handlers. Requests flow
//! through [`dispatch::dispatch`]: the router tree is descended along the
//! longest matching mount prefix, the remaining segments are matched against
//! the routes at that level, path parameters are bound, and the matched
//! handler - wrapped by the middleware collected along the descent - produces
//! exactly one response. Handlers are declarative: they name the request data
//! they need (path parameters, query and header values, cookie values, JSON,
//! form and multipart bodies, attachments) and describe the response built
//! from those values.

pub mod bodies;
pub mod bytesutil;
pub mod dispatch;
pub mod extract;
pub mod form;
pub mod handler;
pub mod json;
pub mod laws;
pub mod message;
pub mod middleware;
pub mod multipart;
pub mod pattern;
pub mod router;
