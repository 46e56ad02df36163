//! Walking the RIDB campground listing page by page: which page to ask for
//! next, and when the listing is complete.

use vstd::prelude::*;

use crate::facility::{text_or_empty, Facility, FacilityResult};
use crate::text::{push_char, push_str};

verus! {

/// How many facilities one RIDB page holds at most.
pub const RIDB_PAGE_LIMIT: usize = 50;

/// The decimal digit for `d`.
pub open spec fn digit_char(d: nat) -> char {
    if d == 0 {
        '0'
    } else if d == 1 {
        '1'
    } else if d == 2 {
        '2'
    } else if d == 3 {
        '3'
    } else if d == 4 {
        '4'
    } else if d == 5 {
        '5'
    } else if d == 6 {
        '6'
    } else if d == 7 {
        '7'
    } else if d == 8 {
        '8'
    } else {
        '9'
    }
}

/// `n` written in decimal, without leading zeros.
pub open spec fn decimal(n: nat) -> Seq<char>
    decreases n,
{
    if n < 10 {
        seq![digit_char(n)]
    } else {
        decimal(n / 10).push(digit_char(n % 10))
    }
}

fn digit(d: usize) -> (c: char)
    requires
        d < 10,
    ensures
        c == digit_char(d as nat),
{
    if d == 0 {
        '0'
    } else if d == 1 {
        '1'
    } else if d == 2 {
        '2'
    } else if d == 3 {
        '3'
    } else if d == 4 {
        '4'
    } else if d == 5 {
        '5'
    } else if d == 6 {
        '6'
    } else if d == 7 {
        '7'
    } else if d == 8 {
        '8'
    } else {
        '9'
    }
}

/// Appends `n` in decimal to `s`.
pub fn push_decimal(s: &mut String, n: usize)
    ensures
        final(s)@ == old(s)@ + decimal(n as nat),
    decreases n,
{
    if n >= 10 {
        push_decimal(s, n / 10);
    }
    push_char(s, digit(n % 10));
    proof {
        if n >= 10 {
            assert(decimal(n as nat) == decimal((n / 10) as nat).push(digit_char((n % 10) as nat)));
        } else {
            assert(decimal(n as nat) == seq![digit_char(n as nat)]);
        }
    }
}

/// The RIDB request for one page of Colorado campgrounds.
pub open spec fn ridb_page_url(limit: nat, offset: nat, api_key: Seq<char>) -> Seq<char> {
    "https://ridb.recreation.gov/api/v1/facilities?state=CO&facilitytype=Campground&limit="@
        + decimal(limit) + "&offset="@ + decimal(offset) + "&apikey="@ + api_key
}

/// `r` is the response entry for `f`.
pub open spec fn is_result_of(f: Facility, r: FacilityResult) -> bool {
    &&& r.id@ == text_or_empty(f.facility_id)
    &&& r.name@ == text_or_empty(f.facility_name)
    &&& r.description@ == text_or_empty(f.facility_type_description)
}

/// What to do once a page has been taken in.
#[derive(PartialEq, Eq, Structural, Clone, Copy, Debug)]
pub enum PageStep {
    /// Ask for the next page.
    FetchNext,
    /// The listing is complete.
    Done,
}

/// The state of a walk through the campground listing.
pub struct CampgroundPager {
    /// The page size asked for.
    pub limit: usize,
    /// Where the next page starts.
    pub offset: usize,
    /// The campgrounds taken in so far, in listing order.
    pub results: Vec<FacilityResult>,
}

impl CampgroundPager {
    /// The page size is the RIDB one, and pages start at multiples of it.
    pub open spec fn wf(&self) -> bool {
        &&& self.limit == RIDB_PAGE_LIMIT
        &&& self.offset % RIDB_PAGE_LIMIT == 0
    }

    /// A walk that has taken in nothing and asks for the first page.
    pub fn new() -> (p: CampgroundPager)
        ensures
            p.wf(),
            p.offset == 0,
            p.results@.len() == 0,
    {
        CampgroundPager { limit: RIDB_PAGE_LIMIT, offset: 0, results: Vec::new() }
    }

    /// The URL of the next page to ask for, with the given API key.
    pub fn next_url(&self, api_key: &str) -> (url: String)
        ensures
            url@ == ridb_page_url(self.limit as nat, self.offset as nat, api_key@),
    {
        let mut url = String::new();
        push_str(
            &mut url,
            "https://ridb.recreation.gov/api/v1/facilities?state=CO&facilitytype=Campground&limit=",
        );
        push_decimal(&mut url, self.limit);
        push_str(&mut url, "&offset=");
        push_decimal(&mut url, self.offset);
        push_str(&mut url, "&apikey=");
        push_str(&mut url, api_key);
        url
    }

    /// Takes in one page: its facilities are appended, in order, as response
    /// entries. A page shorter than the page size ends the walk; otherwise
    /// the next page starts one page size further on.
    pub fn take_page(&mut self, page: Vec<Facility>) -> (step: PageStep)
        requires
            old(self).wf(),
            page.len() < old(self).limit || old(self).offset + old(self).limit <= usize::MAX,
        ensures
            final(self).wf(),
            final(self).results@.len() == old(self).results@.len() + page@.len(),
            forall|i: int|
                0 <= i < old(self).results@.len() ==> #[trigger] final(self).results@[i] == old(
                    self,
                ).results@[i],
            forall|i: int|
                0 <= i < page@.len() ==> is_result_of(
                    #[trigger] page@[i],
                    final(self).results@[old(self).results@.len() + i],
                ),
            forall|i: int|
                0 <= i < page@.len() ==> {
                    let r = #[trigger] final(self).results@[old(self).results@.len() + i];
                    &&& r.id@ == text_or_empty(page@[i].facility_id)
                    &&& r.name@ == text_or_empty(page@[i].facility_name)
                    &&& r.description@ == text_or_empty(page@[i].facility_type_description)
                },
            page@.len() < old(self).limit ==> step == PageStep::Done && final(self).offset == old(
                self,
            ).offset,
            page@.len() >= old(self).limit ==> step == PageStep::FetchNext && final(self).offset
                == old(self).offset + old(self).limit,
    {
        let count = page.len();
        let ghost start = self.results@.len();
        let ghost before = self.results@;
        let ghost facilities = page@;
        let mut page = page;
        let mut taken: Vec<Facility> = Vec::new();
        // Take the facilities from the back, then append them in order.
        while page.len() > 0
            invariant
                page@ + taken@.reverse() == facilities,
            decreases page.len(),
        {
            let f = page.pop().unwrap();
            taken.push(f);
            proof {
                assert(page@ + taken@.reverse() =~= facilities);
            }
        }
        assert(taken@.reverse() == facilities);
        while taken.len() > 0
            invariant
                self.limit == old(self).limit,
                self.offset == old(self).offset,
                self.results@.len() == start + (facilities.len() - taken@.len()),
                taken@.len() <= facilities.len(),
                forall|i: int| 0 <= i < start ==> #[trigger] self.results@[i] == before[i],
                forall|i: int|
                    0 <= i < facilities.len() - taken@.len() ==> is_result_of(
                        #[trigger] facilities[i],
                        self.results@[start + i],
                    ),
                forall|i: int|
                    0 <= i < taken@.len() ==> #[trigger] taken@[i] == facilities[facilities.len()
                        - 1 - i],
                before.len() == start,
            decreases taken.len(),
        {
            let f = taken.pop().unwrap();
            let r = FacilityResult::from_facility(f);
            self.results.push(r);
        }
        if count < self.limit {
            PageStep::Done
        } else {
            self.offset = self.offset + self.limit;
            PageStep::FetchNext
        }
    }

    /// The campgrounds taken in, in listing order.
    pub fn into_results(self) -> (r: Vec<FacilityResult>)
        ensures
            r@ == self.results@,
    {
        self.results
    }
}

} // verus!
