//! A configurable HTTP test double: a route table of canned responses,
//! a dispatcher that resolves inbound requests against it, a randomized
//! error injector, and a mutator that applies batches of route updates.
//!
//! The HTTP transport itself lives outside this crate; everything here is
//! plain data and decisions: which response a request gets, how the table
//! changes under an update, and when a synthetic error is substituted.

pub mod dispatch;
pub mod inject;
pub mod json;
pub mod route;
pub mod table;
pub mod update;

pub use dispatch::dispatch;
pub use dispatch::Response;
pub use inject::pick_status;
pub use route::Route;
pub use route::RouteModel;
pub use table::RouteTable;
pub use update::apply_update;
pub use update::parse_routes;
pub use update::UpdateError;
