use vstd::prelude::*;

use crate::date::CivilDate;
use crate::error::{FieldErrorKind, FieldParsingError, ScrapperError};
use crate::listing::{
    listing_of, parse_listing, reports, Listing, ListingFailure, ListingFragment, ListingView,
};

verus! {

/// The listings of one page, in page order, how many cards were skipped, and
/// why each of them was, in page order.
#[derive(Debug, Clone)]
pub struct PageResult {
    pub listings: Vec<Listing>,
    pub skipped_count: usize,
    pub errors: Vec<ScrapperError>,
}

pub open spec fn views(v: Seq<Listing>) -> Seq<ListingView> {
    v.map_values(|l: Listing| l@)
}

/// The listings of the cards `frags` that parse, in order.
pub open spec fn page_listings(frags: Seq<ListingFragment>, today: CivilDate) -> Seq<ListingView>
    decreases frags.len(),
{
    if frags.len() == 0 {
        Seq::empty()
    } else {
        let prev = page_listings(frags.drop_last(), today);
        match listing_of(frags.last(), today) {
            Ok(l) => prev.push(l),
            Err(_) => prev,
        }
    }
}

/// Why each of the cards `frags` that do not parse gives no listing, in order.
pub open spec fn page_failures(frags: Seq<ListingFragment>, today: CivilDate) -> Seq<ListingFailure>
    decreases frags.len(),
{
    if frags.len() == 0 {
        Seq::empty()
    } else {
        let prev = page_failures(frags.drop_last(), today);
        match listing_of(frags.last(), today) {
            Ok(_) => prev,
            Err(f) => prev.push(f),
        }
    }
}

/// `errors` reports `failures`, one for one.
pub open spec fn reports_all(errors: Seq<ScrapperError>, failures: Seq<ListingFailure>) -> bool {
    errors.len() == failures.len() && forall|i: int|
        0 <= i < errors.len() ==> reports(#[trigger] errors[i], failures[i])
}

/// How many of the cards `frags` do not parse.
pub open spec fn skipped_cards(frags: Seq<ListingFragment>, today: CivilDate) -> nat
    decreases frags.len(),
{
    if frags.len() == 0 {
        0
    } else {
        skipped_cards(frags.drop_last(), today) + if listing_of(frags.last(), today) is Ok {
            0nat
        } else {
            1nat
        }
    }
}

/// Every card either gives a listing or is counted as skipped.
pub proof fn lemma_cards_accounted(frags: Seq<ListingFragment>, today: CivilDate)
    ensures
        page_listings(frags, today).len() + skipped_cards(frags, today) == frags.len(),
    decreases frags.len(),
{
    if frags.len() > 0 {
        lemma_cards_accounted(frags.drop_last(), today);
    }
}

/// The error of a page without a listing grid.
pub open spec fn is_grid_not_found(e: ScrapperError) -> bool {
    e matches ScrapperError::FieldParsingError(p) && p.error_type
        == FieldErrorKind::ListingGridNotFound && p.message@ == "Listing grid not found"@
}

/// Extracts the listings of a page: `grid` is the cards of the page's listing
/// grid, `None` when the page has no grid. A card that does not parse is
/// skipped; it never costs the page its other listings.
pub fn extract_page(grid: &Option<Vec<ListingFragment>>, today: &CivilDate) -> (r: Result<
    PageResult,
    ScrapperError,
>)
    requires
        today.wf(),
    ensures
        match grid {
            None => r matches Err(e) && is_grid_not_found(e),
            Some(frags) => r matches Ok(p) && views(p.listings@) == page_listings(frags@, *today)
                && p.skipped_count == skipped_cards(frags@, *today) && p.listings.len()
                + p.skipped_count == frags.len() && p.errors.len() == p.skipped_count
                && reports_all(p.errors@, page_failures(frags@, *today)),
        },
{
    let frags = match grid {
        None => {
            return Err(
                ScrapperError::FieldParsingError(
                    FieldParsingError {
                        error_type: FieldErrorKind::ListingGridNotFound,
                        message: "Listing grid not found".to_owned(),
                    },
                ),
            );
        },
        Some(f) => f,
    };
    let mut listings: Vec<Listing> = Vec::new();
    let mut skipped: usize = 0;
    let mut errors: Vec<ScrapperError> = Vec::new();
    let mut i: usize = 0;
    while i < frags.len()
        invariant
            i <= frags.len(),
            today.wf(),
            views(listings@) == page_listings(frags@.subrange(0, i as int), *today),
            skipped == skipped_cards(frags@.subrange(0, i as int), *today),
            listings.len() + skipped == i,
            errors.len() == skipped,
            reports_all(errors@, page_failures(frags@.subrange(0, i as int), *today)),
        decreases frags.len() - i,
    {
        let ghost before = frags@.subrange(0, i as int);
        let ghost after = frags@.subrange(0, i + 1);
        proof {
            assert(after.drop_last() =~= before);
            assert(after.last() == frags@[i as int]);
        }
        let ghost prev = listings@;
        match parse_listing(&frags[i], today) {
            Ok(l) => {
                listings.push(l);
                proof {
                    assert(views(listings@) =~= views(prev).push(l@));
                }
            },
            Err(e) => {
                errors.push(e);
                skipped = skipped + 1;
            },
        }
        i = i + 1;
    }
    proof {
        assert(frags@.subrange(0, frags.len() as int) =~= frags@);
    }
    Ok(PageResult { listings, skipped_count: skipped, errors })
}

} // verus!
