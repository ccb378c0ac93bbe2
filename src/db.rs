use vstd::prelude::*;

verus! {

/// A category to crawl, with the search term that stands for it.
#[derive(Debug, Clone)]
pub struct Category {
    pub id: i32,
    pub name: String,
    pub default_query: String,
}

} // verus!
