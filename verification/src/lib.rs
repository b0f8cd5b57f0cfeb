//! Page reads and resumable walks over a connected account's records.

pub mod clock;
pub mod contracts;
pub mod pipeline;
pub mod provider;
pub mod text;
pub mod value;
pub mod textmap;
pub mod toolkits;
