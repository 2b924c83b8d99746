//! Request routing, path sanitising, PEM key selection and JSON event
//! rendering for a small static web server, with their contracts.

pub mod text;
pub mod json_events;
pub mod paths;
pub mod site;
pub mod pem;
pub mod server;
