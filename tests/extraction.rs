use olx_scrapper::{
    extract_page, histogram_axis, parse_listing, CivilDate, CrawlState, CrawlStep, FetchOutcome,
    FieldErrorKind, ListingFragment, ScrapperError, TerminationReason, UtcDateTime,
};

fn day() -> CivilDate {
    CivilDate { year: 2024, month: 5, day: 20 }
}

fn card(n: u32) -> ListingFragment {
    ListingFragment {
        title: Some(format!("Rower {}", n)),
        price_text: Some(format!("{} 000 zł", n)),
        location_date_text: Some("Warszawa - 12 maja 2024".to_string()),
        href: Some(format!("/d/oferta/rower-{}.html", n)),
    }
}

fn titles(step: &[olx_scrapper::Listing]) -> Vec<String> {
    step.iter().map(|l| l.title.clone()).collect()
}

#[test]
fn listing_parsed() {
    let f = ListingFragment {
        title: Some("Laptop".to_string()),
        price_text: Some("1 200,50 zł do negocjacji".to_string()),
        location_date_text: Some("Warszawa - dzisiaj o 14:30".to_string()),
        href: Some("/d/oferta/laptop.html".to_string()),
    };
    let l = parse_listing(&f, &day()).unwrap();
    assert_eq!(l.title, "Laptop");
    assert_eq!(l.price.value, 120050);
    assert!(l.price.negotiable);
    assert_eq!(l.location, "Warszawa");
    assert_eq!(
        l.date_posted,
        UtcDateTime { year: 2024, month: 5, day: 20, hour: 14, minute: 30 }
    );
    assert_eq!(l.url, "/d/oferta/laptop.html");
}

fn missing_message(e: ScrapperError) -> String {
    match e {
        ScrapperError::MissingFieldError(m) => m.0,
        other => panic!("unexpected error {:?}", other),
    }
}

#[test]
fn listing_missing_parts() {
    let mut f = card(1);
    f.title = None;
    assert_eq!(missing_message(parse_listing(&f, &day()).unwrap_err()), "ad-card-title missing");
    let mut f = card(1);
    f.price_text = None;
    assert_eq!(missing_message(parse_listing(&f, &day()).unwrap_err()), "ad-price missing");
    let mut f = card(1);
    f.location_date_text = None;
    assert_eq!(missing_message(parse_listing(&f, &day()).unwrap_err()), "location-date missing");
    let mut f = card(1);
    f.href = None;
    assert_eq!(missing_message(parse_listing(&f, &day()).unwrap_err()), "href missing");
}

#[test]
fn listing_first_failure_decides() {
    let f = ListingFragment {
        title: Some("x".to_string()),
        price_text: Some("za darmo".to_string()),
        location_date_text: None,
        href: None,
    };
    match parse_listing(&f, &day()).unwrap_err() {
        ScrapperError::FieldParsingError(e) => {
            assert_eq!(e.error_type, FieldErrorKind::PriceParsingError)
        }
        other => panic!("unexpected error {:?}", other),
    }
}

#[test]
fn page_skips_malformed_card() {
    let mut cards: Vec<ListingFragment> = (1..=10).map(card).collect();
    cards[4].location_date_text = Some("Warszawa".to_string());
    let page = extract_page(&Some(cards), &day()).unwrap();
    assert_eq!(page.listings.len(), 9);
    assert_eq!(page.skipped_count, 1);
    assert_eq!(page.errors.len(), 1);
    match &page.errors[0] {
        ScrapperError::FieldParsingError(e) => {
            assert_eq!(e.error_type, FieldErrorKind::LocationDateParsingError);
            assert_eq!(e.message, "Warszawa");
        }
        other => panic!("unexpected error {:?}", other),
    }
    let expected: Vec<String> =
        [1, 2, 3, 4, 6, 7, 8, 9, 10].iter().map(|n| format!("Rower {}", n)).collect();
    assert_eq!(titles(&page.listings), expected);
}

#[test]
fn page_empty_grid() {
    let page = extract_page(&Some(Vec::new()), &day()).unwrap();
    assert!(page.listings.is_empty());
    assert_eq!(page.skipped_count, 0);
}

#[test]
fn page_without_grid_fails() {
    match extract_page(&None, &day()).unwrap_err() {
        ScrapperError::FieldParsingError(e) => {
            assert_eq!(e.error_type, FieldErrorKind::ListingGridNotFound)
        }
        other => panic!("unexpected error {:?}", other),
    }
}

fn fetch(state: CrawlState, outcome: FetchOutcome) -> CrawlStep {
    state.step(outcome, &day())
}

#[test]
fn crawl_ends_on_redirect() {
    let mut state = CrawlState::new();
    assert_eq!(state.page, 1);
    let pages = vec![vec![card(1), card(2)], vec![card(3)], vec![card(4), card(5), card(6)]];
    for (i, cards) in pages.into_iter().enumerate() {
        match fetch(state, FetchOutcome::Page(Some(cards))) {
            CrawlStep::Fetch(next) => {
                assert_eq!(next.page, i as u32 + 2);
                state = next;
            }
            CrawlStep::Done(_) => panic!("stopped early"),
        }
    }
    match fetch(state, FetchOutcome::Redirected("https://www.olx.pl/q-rower/?page=3".to_string())) {
        CrawlStep::Done(res) => {
            let expected: Vec<String> = (1..=6).map(|n| format!("Rower {}", n)).collect();
            assert_eq!(titles(&res.listings), expected);
            assert_eq!(res.pages_fetched, 3);
            assert!(matches!(res.termination, TerminationReason::ExhaustedByRedirect));
        }
        CrawlStep::Fetch(_) => panic!("did not stop"),
    }
}

#[test]
fn crawl_transport_error_keeps_partial_results() {
    let state = match fetch(CrawlState::new(), FetchOutcome::Page(Some(vec![card(1), card(2)]))) {
        CrawlStep::Fetch(next) => next,
        CrawlStep::Done(_) => panic!("stopped early"),
    };
    match fetch(state, FetchOutcome::TransportError("connection reset".to_string())) {
        CrawlStep::Done(res) => {
            assert_eq!(titles(&res.listings), vec!["Rower 1".to_string(), "Rower 2".to_string()]);
            assert_eq!(res.pages_fetched, 1);
            match res.termination {
                TerminationReason::Error(ScrapperError::ReqwestError(m)) => {
                    assert_eq!(m, "connection reset")
                }
                other => panic!("unexpected termination {:?}", other),
            }
        }
        CrawlStep::Fetch(_) => panic!("did not stop"),
    }
}

#[test]
fn crawl_page_without_grid_fails() {
    match fetch(CrawlState::new(), FetchOutcome::Page(None)) {
        CrawlStep::Done(res) => {
            assert!(res.listings.is_empty());
            assert_eq!(res.pages_fetched, 0);
            assert!(matches!(
                res.termination,
                TerminationReason::Error(ScrapperError::FieldParsingError(_))
            ));
        }
        CrawlStep::Fetch(_) => panic!("did not stop"),
    }
}

#[test]
fn histogram_axis_bounds() {
    let axis = histogram_axis(&vec![50000, 1000, 31000, 1000]);
    assert_eq!((axis.min, axis.max, axis.step), (1000, 50000, 3266));
    let empty = histogram_axis(&Vec::new());
    assert_eq!((empty.min, empty.max, empty.step), (0, 0, 0));
}

#[test]
fn search_address_first_page() {
    assert_eq!(olx_scrapper::search_address("rower", 1), "https://www.olx.pl/q-rower/");
}

#[test]
fn search_address_later_pages() {
    assert_eq!(olx_scrapper::search_address("rower", 2), "https://www.olx.pl/q-rower/?page=2");
    assert_eq!(
        olx_scrapper::search_address("iphone-13", 4294967295),
        "https://www.olx.pl/q-iphone-13/?page=4294967295"
    );
    assert_eq!(olx_scrapper::search_address("x", 10), "https://www.olx.pl/q-x/?page=10");
}

#[test]
fn search_address_encodes_term() {
    assert_eq!(
        olx_scrapper::search_address("iphone 13", 2),
        "https://www.olx.pl/q-iphone%2013/?page=2"
    );
    assert_eq!(
        olx_scrapper::search_address("rower górski/dziecięcy?#", 1),
        "https://www.olx.pl/q-rower%20g%C3%B3rski%2Fdzieci%C4%99cy%3F%23/"
    );
}

#[test]
fn price_labels() {
    assert_eq!(olx_scrapper::price_label(120050), "1200 PLN");
    assert_eq!(olx_scrapper::price_label(99), "0 PLN");
}

#[test]
fn listing_keeps_parser_error() {
    let f = ListingFragment {
        title: Some("x".to_string()),
        price_text: Some("100 zł".to_string()),
        location_date_text: Some("Łódź - 12 maj 2024".to_string()),
        href: None,
    };
    match parse_listing(&f, &day()).unwrap_err() {
        ScrapperError::FieldParsingError(e) => {
            assert_eq!(e.error_type, FieldErrorKind::DateParsingError);
            assert_eq!(e.message, "12 maj 2024");
        }
        other => panic!("unexpected error {:?}", other),
    }
}
