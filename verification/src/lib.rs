//! A link shortener's core: short random ids, a table of links keyed by id,
//! and the two request handlers (create and lookup), each with a proved
//! contract.

pub mod error;
pub mod handlers;
pub mod id;
pub mod laws;
pub mod models;
pub mod pattern;
pub mod store;
pub mod validate;

pub use error::{Error, ErrorView};
pub use handlers::{
    begin_create, continue_create, create, delete_links, finish_lookup, lookup, Attempt,
    CreateStep, MAX_ATTEMPTS,
};
pub use id::{generate_id, is_valid_id, ID_LENGTH};
pub use models::{Link, LinkView, NewLink};
pub use pattern::{containment_pattern, like_match};
pub use store::{first_match, LinkTable};
pub use validate::{judge, validate_url};
