use backend::facility::Facility;
use backend::paging::{push_decimal, CampgroundPager, PageStep, RIDB_PAGE_LIMIT};

fn facility(id: &str) -> Facility {
    Facility {
        facility_id: Some(id.to_string()),
        facility_name: Some(format!("Camp {}", id)),
        facility_type_description: None,
        facility_description: None,
    }
}

#[test]
fn first_url_asks_for_the_first_page() {
    let p = CampgroundPager::new();
    assert_eq!(
        p.next_url("KEY"),
        "https://ridb.recreation.gov/api/v1/facilities?state=CO&facilitytype=Campground&limit=50&offset=0&apikey=KEY"
    );
}

#[test]
fn full_page_moves_on_and_short_page_ends() {
    let mut p = CampgroundPager::new();
    let page: Vec<Facility> = (0..RIDB_PAGE_LIMIT).map(|i| facility(&i.to_string())).collect();
    assert_eq!(p.take_page(page), PageStep::FetchNext);
    assert_eq!(p.offset, 50);
    assert!(p.next_url("k").ends_with("&limit=50&offset=50&apikey=k"));
    let step = p.take_page(vec![facility("x"), facility("y")]);
    assert_eq!(step, PageStep::Done);
    assert_eq!(p.offset, 50);
    let results = p.into_results();
    assert_eq!(results.len(), 52);
    assert_eq!(results[0].id, "0");
    assert_eq!(results[49].name, "Camp 49");
    assert_eq!(results[50].id, "x");
    assert_eq!(results[51].id, "y");
    assert_eq!(results[51].description, "");
}

#[test]
fn empty_first_page_ends_the_walk() {
    let mut p = CampgroundPager::new();
    assert_eq!(p.take_page(Vec::new()), PageStep::Done);
    assert!(p.into_results().is_empty());
}

#[test]
fn decimal_matches_std_formatting() {
    for n in [0usize, 7, 10, 50, 99, 100, 12345, usize::MAX] {
        let mut s = String::from("#");
        push_decimal(&mut s, n);
        assert_eq!(s, format!("#{}", n));
    }
}
