//! Route resolution and directory rendering for a static file server.
//!
//! A request path is resolved to a location that is confined to the served
//! root ([`resolver`]), a responder is picked for what is there ([`routes`]),
//! and the responder gives the answer: the listing page of a directory
//! ([`listing`], [`route_utils`]), the rendered page of a document
//! ([`handlers`]), or the file itself ([`responses`]).
//!
//! Nothing here touches the filesystem or the network. Whoever serves asks
//! the filesystem and hands over what it shows as plain values.

pub mod assets;
pub mod handlers;
pub mod links;
pub mod listing;
pub mod markup;
pub mod order;
pub mod paths;
pub mod resolver;
pub mod responses;
pub mod route_utils;
pub mod routes;
