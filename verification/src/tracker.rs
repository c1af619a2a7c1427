//! The tracker: which peers serve which content.

pub mod page_laws;
pub mod routes;
pub mod routes_laws;
pub mod size_laws;
pub mod store;
pub mod store_laws;
pub mod tables;
pub mod ui;
pub mod ui_laws;
