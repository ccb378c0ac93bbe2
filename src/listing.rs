use vstd::prelude::*;

use crate::date::{CivilDate, UtcDateTime};
use crate::error::{FieldErrorKind, FieldParsingError, MissingFieldError, ScrapperError};
use crate::location::{get_location_date_from_raw_text, location_date_of, location_error_message};
use crate::price::{get_price_from_raw_text, price_error_message, price_of, Price};

verus! {

/// One listing card as read from the page's markup: the text of each part
/// that the card holds, `None` where the part is absent.
#[derive(Debug, Clone)]
pub struct ListingFragment {
    /// Text of the title heading.
    pub title: Option<String>,
    /// Text of the price element.
    pub price_text: Option<String>,
    /// Text of the location-and-date element.
    pub location_date_text: Option<String>,
    /// The `href` of the title's link.
    pub href: Option<String>,
}

/// One classified ad.
#[derive(Debug, Clone)]
pub struct Listing {
    pub title: String,
    pub price: Price,
    pub location: String,
    pub date_posted: UtcDateTime,
    pub url: String,
}

pub ghost struct ListingView {
    pub title: Seq<char>,
    pub price: Price,
    pub location: Seq<char>,
    pub date_posted: UtcDateTime,
    pub url: Seq<char>,
}

impl View for Listing {
    type V = ListingView;

    open spec fn view(&self) -> ListingView {
        ListingView {
            title: self.title@,
            price: self.price,
            location: self.location@,
            date_posted: self.date_posted,
            url: self.url@,
        }
    }
}

/// Why a card gave no listing.
pub ghost enum ListingFailure {
    /// The part named by the message is absent.
    Missing(Seq<char>),
    /// A part's text did not parse: the parser's error kind and message.
    Field(FieldErrorKind, Seq<char>),
}

/// The listing that the card `f` stands for, or why it stands for none. The
/// parts are taken in order (title, price, location and date, link) and the
/// first that fails decides.
pub open spec fn listing_of(f: ListingFragment, today: CivilDate) -> Result<ListingView, ListingFailure> {
    match f.title {
        None => Err(ListingFailure::Missing("ad-card-title missing"@)),
        Some(title) => match f.price_text {
            None => Err(ListingFailure::Missing("ad-price missing"@)),
            Some(pt) => match price_of(pt@) {
                None => Err(
                    ListingFailure::Field(FieldErrorKind::PriceParsingError, price_error_message(pt@)),
                ),
                Some(price) => match f.location_date_text {
                    None => Err(ListingFailure::Missing("location-date missing"@)),
                    Some(ld) => match location_date_of(ld@, today) {
                        Err(k) => Err(ListingFailure::Field(k, location_error_message(ld@))),
                        Ok((loc, d)) => match f.href {
                            None => Err(ListingFailure::Missing("href missing"@)),
                            Some(h) => Ok(
                                ListingView {
                                    title: title@,
                                    price,
                                    location: loc,
                                    date_posted: d,
                                    url: h@,
                                },
                            ),
                        },
                    },
                },
            },
        },
    }
}

/// `e` is the error that reports `fail`.
pub open spec fn reports(e: ScrapperError, fail: ListingFailure) -> bool {
    match fail {
        ListingFailure::Missing(what) => e matches ScrapperError::MissingFieldError(m) && m.0@
            == what,
        ListingFailure::Field(k, msg) => e matches ScrapperError::FieldParsingError(p)
            && p.error_type == k && p.message@ == msg,
    }
}

fn missing(what: &str) -> (e: ScrapperError)
    ensures
        e matches ScrapperError::MissingFieldError(m) && m.0@ == what@,
{
    ScrapperError::MissingFieldError(MissingFieldError(what.to_owned()))
}

fn field_error(p: FieldParsingError) -> (e: ScrapperError)
    ensures
        e matches ScrapperError::FieldParsingError(q) && q.error_type == p.error_type
            && q.message@ == p.message@,
{
    ScrapperError::FieldParsingError(p)
}

/// Builds the listing of one card; no partial listing is ever returned.
pub fn parse_listing(listing: &ListingFragment, today: &CivilDate) -> (r: Result<Listing, ScrapperError>)
    requires
        today.wf(),
    ensures
        match r {
            Ok(l) => listing_of(*listing, *today) == Ok::<ListingView, ListingFailure>(l@)
                && l.date_posted.wf(),
            Err(e) => listing_of(*listing, *today) is Err && reports(
                e,
                listing_of(*listing, *today)->Err_0,
            ),
        },
{
    let title = match &listing.title {
        None => return Err(missing("ad-card-title missing")),
        Some(t) => t.clone(),
    };
    let price = match &listing.price_text {
        None => return Err(missing("ad-price missing")),
        Some(pt) => match get_price_from_raw_text(pt.as_str()) {
            Ok(p) => p,
            Err(e) => return Err(field_error(e)),
        },
    };
    let (location, date_posted) = match &listing.location_date_text {
        None => return Err(missing("location-date missing")),
        Some(ld) => match get_location_date_from_raw_text(ld.as_str(), today) {
            Ok(v) => v,
            Err(e) => return Err(field_error(e)),
        },
    };
    let url = match &listing.href {
        None => return Err(missing("href missing")),
        Some(h) => h.clone(),
    };
    Ok(Listing { title, price, location, date_posted, url })
}

} // verus!
