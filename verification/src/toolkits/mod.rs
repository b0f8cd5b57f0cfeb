//! The toolkits whose accounts can be walked.

pub mod clickup;
pub mod slack;

pub use clickup::ClickupProvider;
pub use slack::walk::SlackProvider;
