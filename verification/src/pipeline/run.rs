//! What one page read hands back.

use vstd::prelude::*;

verus! {

/// One item read from a provider.
#[derive(Debug)]
pub struct ConnectorRecord {
    /// The item's stable id, by which it is recognised when it is read again.
    pub item_id: String,
    pub title: String,
    pub content: String,
    pub mime: Option<String>,
    /// A canonical link back to the item.
    pub url: Option<String>,
    pub updated_at_ms: Option<i64>,
    pub tags: Vec<String>,
}

/// One page of records, and where the page after it starts.
#[derive(Debug)]
pub struct ProviderPage {
    pub records: Vec<ConnectorRecord>,
    /// The version of each record that has one, as `(item id, version)`.
    pub versions: Vec<(String, String)>,
    /// Where to resume; `None` when the walk is over.
    pub next_cursor: Option<String>,
    /// How many requests the read made.
    pub requests_used: u32,
}

impl ProviderPage {
    /// Whether this page holds no record and counts no request.
    pub open spec fn is_bare(self) -> bool {
        self.records@.len() == 0 && self.versions@.len() == 0 && self.requests_used == 0
    }
}

impl Default for ProviderPage {
    /// A page carrying nothing, after which the walk is over.
    fn default() -> (page: ProviderPage)
        ensures
            page.is_bare(),
            page.next_cursor is None,
    {
        ProviderPage {
            records: Vec::new(),
            versions: Vec::new(),
            next_cursor: None,
            requests_used: 0,
        }
    }
}

/// The texts of a list of pairs.
pub open spec fn pairs(list: Seq<(String, String)>) -> Seq<(Seq<char>, Seq<char>)> {
    Seq::new(list.len(), |i: int| (list[i].0@, list[i].1@))
}

} // verus!
