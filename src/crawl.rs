use vstd::prelude::*;

use crate::date::CivilDate;
use crate::error::ScrapperError;
use crate::listing::{Listing, ListingFragment};
use crate::page::{extract_page, is_grid_not_found, page_listings, views};

verus! {

/// What fetching one page came to.
#[derive(Debug, Clone)]
pub enum FetchOutcome {
    /// The page was served; its listing-grid cards, `None` when it has no grid.
    Page(Option<Vec<ListingFragment>>),
    /// The site redirected the request to the given address: the pages have
    /// run out.
    Redirected(String),
    /// The transport failed, with its message.
    TransportError(String),
}

/// Why a crawl stopped.
#[derive(Debug, Clone)]
pub enum TerminationReason {
    ExhaustedByRedirect,
    Error(ScrapperError),
}

/// Everything a crawl gathered. On an error the listings of the pages before
/// it are kept.
#[derive(Debug, Clone)]
pub struct CrawlResult {
    pub listings: Vec<Listing>,
    pub pages_fetched: u32,
    pub termination: TerminationReason,
}

/// A crawl in progress: the next page to fetch and the listings so far.
#[derive(Debug, Clone)]
pub struct CrawlState {
    pub page: u32,
    pub listings: Vec<Listing>,
}

/// What the crawl does after a page.
#[derive(Debug, Clone)]
pub enum CrawlStep {
    /// Fetch the state's next page.
    Fetch(CrawlState),
    /// The crawl is over.
    Done(CrawlResult),
}

/// The crawl ended because a page had no listing grid.
pub open spec fn ended_without_grid(t: TerminationReason) -> bool {
    t matches TerminationReason::Error(e) && is_grid_not_found(e)
}

/// The crawl ended because the transport failed with the message `msg`.
pub open spec fn ended_by_transport(t: TerminationReason, msg: Seq<char>) -> bool {
    t matches TerminationReason::Error(ScrapperError::ReqwestError(m)) && m@ == msg
}

impl CrawlState {
    pub open spec fn wf(self) -> bool {
        self.page >= 1
    }

    /// A crawl that starts at page 1 with nothing gathered.
    pub fn new() -> (r: CrawlState)
        ensures
            r.wf(),
            r.page == 1,
            r.listings@.len() == 0,
    {
        CrawlState { page: 1, listings: Vec::new() }
    }

    /// Takes in the outcome of fetching page `self.page`. A served page adds
    /// its listings, in order, after those gathered so far, and the crawl goes
    /// on with the next page; a redirect ends the crawl as exhausted; a failed
    /// transport or a page without a listing grid ends it with that error.
    pub fn step(self, outcome: FetchOutcome, today: &CivilDate) -> (r: CrawlStep)
        requires
            self.wf(),
            self.page < u32::MAX,
            today.wf(),
        ensures
            match outcome {
                FetchOutcome::Page(Some(frags)) => r matches CrawlStep::Fetch(next) && next.wf()
                    && next.page == self.page + 1 && views(next.listings@) == views(
                    self.listings@,
                ) + page_listings(frags@, *today),
                FetchOutcome::Page(None) => r matches CrawlStep::Done(res) && views(
                    res.listings@,
                ) == views(self.listings@) && res.pages_fetched == self.page - 1
                    && ended_without_grid(res.termination),
                FetchOutcome::Redirected(_) => r matches CrawlStep::Done(res) && views(
                    res.listings@,
                ) == views(self.listings@) && res.pages_fetched == self.page - 1
                    && res.termination is ExhaustedByRedirect,
                FetchOutcome::TransportError(msg) => r matches CrawlStep::Done(res) && views(
                    res.listings@,
                ) == views(self.listings@) && res.pages_fetched == self.page - 1
                    && ended_by_transport(res.termination, msg@),
            },
    {
        let CrawlState { page, mut listings } = self;
        match outcome {
            FetchOutcome::Redirected(_) => CrawlStep::Done(
                CrawlResult {
                    listings,
                    pages_fetched: page - 1,
                    termination: TerminationReason::ExhaustedByRedirect,
                },
            ),
            FetchOutcome::TransportError(msg) => CrawlStep::Done(
                CrawlResult {
                    listings,
                    pages_fetched: page - 1,
                    termination: TerminationReason::Error(ScrapperError::ReqwestError(msg)),
                },
            ),
            FetchOutcome::Page(grid) => match extract_page(&grid, today) {
                Err(e) => CrawlStep::Done(
                    CrawlResult {
                        listings,
                        pages_fetched: page - 1,
                        termination: TerminationReason::Error(e),
                    },
                ),
                Ok(p) => {
                    let ghost before = listings@;
                    let mut more = p.listings;
                    let ghost added = more@;
                    listings.append(&mut more);
                    proof {
                        assert(views(listings@) =~= views(before) + views(added));
                    }
                    CrawlStep::Fetch(CrawlState { page: page + 1, listings })
                },
            },
        }
    }
}

} // verus!
