//! Domain values and validation shared by the browser and the server.

pub mod fields;
pub mod account;
pub mod series;
pub mod event;
pub mod response;
pub mod organizer;
pub mod continuation;
