//! Reading a provider's pages.

pub mod fetch;
pub mod json;
pub mod laws;
pub mod run;

pub use fetch::{DepthWindow, PageRequest, PageSpec, Paging};
pub use json::{first_array, next_page_token, pick_str};
pub use run::{ConnectorRecord, ProviderPage};
