//! Facility records as the Recreation.gov RIDB service sends them, and the
//! shapes this service answers with or stores.

use vstd::prelude::*;

use crate::html::{plain_text, strip_html};
use crate::text::push_str;

verus! {

/// A facility as listed by the RIDB facilities endpoint; every field may be
/// missing.
pub struct Facility {
    pub facility_id: Option<String>,
    pub facility_name: Option<String>,
    pub facility_type_description: Option<String>,
    pub facility_description: Option<String>,
}

/// One facility in a response of this service.
pub struct FacilityResult {
    pub id: String,
    pub name: String,
    pub description: String,
}

/// The text of an optional field, empty where it is missing.
pub open spec fn text_or_empty(o: Option<String>) -> Seq<char> {
    match o {
        Some(s) => s@,
        None => Seq::empty(),
    }
}

fn or_empty(o: Option<String>) -> (r: String)
    ensures
        r@ == text_or_empty(o),
{
    match o {
        Some(s) => s,
        None => String::new(),
    }
}

impl FacilityResult {
    /// The response entry for a listed facility: its id, its name and its
    /// type description, each empty where the listing has none.
    pub fn from_facility(f: Facility) -> (r: FacilityResult)
        ensures
            r.id@ == text_or_empty(f.facility_id),
            r.name@ == text_or_empty(f.facility_name),
            r.description@ == text_or_empty(f.facility_type_description),
    {
        FacilityResult {
            id: or_empty(f.facility_id),
            name: or_empty(f.facility_name),
            description: or_empty(f.facility_type_description),
        }
    }
}

/// A facility as the seed file holds it (coordinates aside).
pub struct RidbFacility {
    pub id: String,
    pub name: String,
    pub description: String,
    pub keywords: String,
    pub is_reservable: bool,
    pub facility_type: String,
}

/// A facility ready to be stored (coordinates aside): its description
/// cleaned of HTML, and the text that its embedding is computed from.
pub struct FacilityRecord {
    pub id: String,
    pub name: String,
    pub description: String,
    pub embedding_text: String,
    pub is_reservable: bool,
    pub facility_type: String,
}

/// Name, cleaned description and keywords, joined by single spaces.
pub open spec fn embedding_text_of(
    name: Seq<char>,
    clean_description: Seq<char>,
    keywords: Seq<char>,
) -> Seq<char> {
    name + seq![' '] + clean_description + seq![' '] + keywords
}

/// The text an embedding is computed from: name, cleaned description and
/// keywords, joined by single spaces.
pub fn embedding_text(name: &str, clean_description: &str, keywords: &str) -> (r: String)
    ensures
        r@ == embedding_text_of(name@, clean_description@, keywords@),
{
    let mut s = String::new();
    push_str(&mut s, name);
    push_str(&mut s, " ");
    push_str(&mut s, clean_description);
    push_str(&mut s, " ");
    push_str(&mut s, keywords);
    proof {
        reveal_strlit(" ");
    }
    s
}

impl FacilityRecord {
    /// The stored form of a seed facility: the description is reduced to
    /// plain text, and the embedding text joins name, that plain text and
    /// the keywords.
    pub fn from_ridb(f: RidbFacility) -> (r: FacilityRecord)
        ensures
            r.id == f.id,
            r.name == f.name,
            r.description@ == plain_text(f.description@),
            r.embedding_text@ == embedding_text_of(
                f.name@,
                plain_text(f.description@),
                f.keywords@,
            ),
            r.is_reservable == f.is_reservable,
            r.facility_type == f.facility_type,
    {
        let clean = strip_html(f.description.as_str());
        let text = embedding_text(f.name.as_str(), clean.as_str(), f.keywords.as_str());
        FacilityRecord {
            id: f.id,
            name: f.name,
            description: clean,
            embedding_text: text,
            is_reservable: f.is_reservable,
            facility_type: f.facility_type,
        }
    }
}

} // verus!
