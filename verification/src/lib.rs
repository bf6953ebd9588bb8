//! Validation of READMEs that list resources: their entries, how much they may
//! change from one revision to the next, and whether their links can be followed.

pub mod address_laws;
pub mod answer_laws;
pub mod churn;
pub mod churn_laws;
pub mod cli;
pub mod cli_laws;
pub mod http;
pub mod link_laws;
pub mod links;
pub mod listing_laws;
pub mod order;
pub mod pattern;
pub mod readme;
pub mod readme_laws;
pub mod text;
pub mod text_laws;
pub mod url;
pub mod url_laws;
pub mod validate;

pub use churn::validate_churn;
pub use http::{http_status, USER_AGENT};
pub use links::{check_link, check_links, classify_exception, classify_status, LinkError, Severity};
pub use readme::Resource;
pub use url::{normalize_url, ValueError};
pub use validate::{validate_text, Validation};
