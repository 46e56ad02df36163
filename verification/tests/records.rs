use backend::facility::{Facility, FacilityRecord, FacilityResult, RidbFacility};

/// None fields on a Facility must produce empty strings in the FacilityResult.
#[test]
fn test_campground_defaults_on_none_facility_fields() {
    let f = Facility {
        facility_id: None,
        facility_name: None,
        facility_type_description: None,
        facility_description: None,
    };
    let c = FacilityResult::from_facility(f);
    assert_eq!(c.id, "");
    assert_eq!(c.name, "");
    assert_eq!(c.description, "");
}

#[test]
fn result_takes_id_name_and_type() {
    let f = Facility {
        facility_id: Some("233115".to_string()),
        facility_name: Some("Rampart Range".to_string()),
        facility_type_description: Some("Campground".to_string()),
        facility_description: Some("<p>Great views</p>".to_string()),
    };
    let c = FacilityResult::from_facility(f);
    assert_eq!(c.id, "233115");
    assert_eq!(c.name, "Rampart Range");
    assert_eq!(c.description, "Campground");
}

#[test]
fn record_cleans_description_and_builds_embedding_text() {
    let f = RidbFacility {
        id: "233115".to_string(),
        name: "Rampart Range Campground".to_string(),
        description: "<p>Great&nbsp;views</p>".to_string(),
        keywords: "camping, hiking".to_string(),
        is_reservable: true,
        facility_type: "Campground".to_string(),
    };
    let r = FacilityRecord::from_ridb(f);
    assert_eq!(r.id, "233115");
    assert_eq!(r.name, "Rampart Range Campground");
    assert_eq!(r.description, "Great views");
    assert_eq!(r.embedding_text, "Rampart Range Campground Great views camping, hiking");
    assert!(r.is_reservable);
    assert_eq!(r.facility_type, "Campground");
}

#[test]
fn record_with_empty_description_keeps_both_separators() {
    let f = RidbFacility {
        id: "1".to_string(),
        name: "Camp A".to_string(),
        description: "".to_string(),
        keywords: "".to_string(),
        is_reservable: false,
        facility_type: "Campground".to_string(),
    };
    let r = FacilityRecord::from_ridb(f);
    assert_eq!(r.description, "");
    assert_eq!(r.embedding_text, "Camp A  ");
    assert!(!r.is_reservable);
}
