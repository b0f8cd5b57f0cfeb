//! What a page read is given, and how it fails.

use vstd::prelude::*;

use crate::text;
use crate::value::Json;

verus! {

/// Why a read failed.
#[derive(Debug)]
pub enum Error {
    /// An action failed upstream.
    Action { action: String, message: String },
    /// A stored value could not be written or read.
    Decode { key: String, message: String },
}

/// The bounds of one sync run.
#[derive(Debug, Clone, Copy)]
pub struct SyncLimits {
    /// Most items the run can use.
    pub max_items: usize,
    /// How many days back the run reads; `None` is unbounded.
    pub depth_days: Option<u32>,
}

/// Who a connected account belongs to.
#[derive(Debug)]
pub struct ProviderUserProfile {
    pub toolkit: String,
    pub connection_id: Option<String>,
    pub username: Option<String>,
    pub display_name: Option<String>,
    pub email: Option<String>,
    pub avatar_url: Option<String>,
    /// The whole payload, so a caller wanting a field this shape does not name can still reach
    /// it.
    pub extras: Json,
}

/// Whether `found` is what `pick` finds at `paths` of a payload.
pub open spec fn picks<F: Fn(&Json, &[&str]) -> Option<String>>(
    pick: F,
    payload: Json,
    paths: Seq<Seq<char>>,
    found: Option<String>,
) -> bool {
    exists|given: &Json, asked: &[&str]|
        #![trigger pick.ensures((given, asked), found)]
        *given == payload && text::texts(asked@) == paths && pick.ensures((given, asked), found)
}

} // verus!
