//! Account ledger of the backend showdown service.

pub mod model;
pub mod ledger;
pub mod api;
pub mod v1;
