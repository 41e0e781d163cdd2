//! Verified core of the point-of-sale backend: the inventory reports, the
//! translation cache and the decisions taken around translation and sign-in.

pub mod auth;
pub mod cache;
pub mod json;
pub mod json_text;
pub mod status;
pub mod ingredients;
pub mod menu;
pub mod sale;
pub mod keywords;
pub mod translate;
