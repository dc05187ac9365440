use vstd::prelude::*;

use crate::ledger::{listing, rows_view, ItemData, Ledger};

verus! {

/// A greeting that a caller sends to check that the service answers.
pub struct Hello {
    pub hello: String,
}

impl Hello {
    /// Whether the greeting is the one the service answers to: exactly `actix`.
    pub fn is_accepted(&self) -> (r: bool)
        ensures
            r == (self.hello@ == "actix"@),
    {
        let expected = "actix".to_owned();
        self.hello == expected
    }
}

/// The query of a trade listing: an optional item name to filter by.
pub struct QueryParams {
    pub item_name: Option<String>,
}

impl QueryParams {
    /// The filter this query asks for, as the listing model takes it.
    pub open spec fn filter(&self) -> Option<Seq<char>> {
        match self.item_name {
            Some(n) => Some(n@),
            None => None,
        }
    }
}

/// The query of a deletion: the identifier of the trade to remove.
pub struct DeleteQueryParams {
    pub id: i64,
}

impl Ledger {
    /// The listing that `query` asks for. The item name is compared as a value, character
    /// for character, never read as query syntax.
    pub fn list_for(&self, query: &QueryParams) -> (r: Vec<ItemData>)
        ensures
            rows_view(r@) == listing(self.items(), self.trades(), query.filter()),
    {
        match &query.item_name {
            Some(n) => self.list(Some(n.as_str())),
            None => self.list(None),
        }
    }
}

} // verus!
