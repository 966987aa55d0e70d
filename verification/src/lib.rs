//! A gift-exchange ("Wichtel") event store: events collect participants under
//! an invite code and, once closed, hold a secret assignment in which nobody
//! gifts themselves.

pub mod clock;
pub mod codes;
pub mod derange;
pub mod entropy;
pub mod error;
pub mod fresh;
pub mod handlers;
pub mod models;
pub mod search;
pub mod state;
pub mod text;
