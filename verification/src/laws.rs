//! What the service's answers must satisfy, stated independently of how
//! they are computed: numbers in URLs read back as the numbers they stand
//! for, response entries carry the right fields, embedding texts keep every
//! part, and each search filter adds exactly its own pieces to the query.

use vstd::prelude::*;

use crate::facility::{embedding_text_of, Facility, FacilityResult};
use crate::paging::{decimal, digit_char, is_result_of, ridb_page_url};
use crate::search::{search_plan, unicode_uppercase, BindModel, PartModel};

verus! {

// ---------------------------------------------------------------------------
// Decimal numbers
// ---------------------------------------------------------------------------

/// The number a decimal digit stands for.
pub open spec fn digit_value(c: char) -> int {
    c as int - '0' as int
}

/// The number a text of decimal digits stands for.
pub open spec fn decimal_value(s: Seq<char>) -> int
    decreases s.len(),
{
    if s.len() == 0 {
        0
    } else {
        decimal_value(s.subrange(0, s.len() - 1)) * 10 + digit_value(s[s.len() - 1])
    }
}

/// `s` is a number written the usual way: one or more digits `0`..`9`, and
/// no leading zero unless the number is zero.
pub open spec fn is_canonical_decimal(s: Seq<char>) -> bool {
    &&& s.len() > 0
    &&& forall|m: int| 0 <= m < s.len() ==> '0' <= #[trigger] s[m] && s[m] <= '9'
    &&& s.len() > 1 ==> s[0] != '0'
}

proof fn lemma_digit_char(d: nat)
    requires
        d < 10,
    ensures
        '0' <= digit_char(d) && digit_char(d) <= '9',
        digit_value(digit_char(d)) == d,
        d > 0 ==> digit_char(d) != '0',
{
}

/// `n` in decimal is written the usual way, and reads back as `n`.
pub proof fn decimal_reads_back(n: nat)
    ensures
        is_canonical_decimal(decimal(n)),
        decimal_value(decimal(n)) == n,
        n > 0 ==> decimal(n)[0] != '0',
    decreases n,
{
    if n < 10 {
        lemma_digit_char(n);
        let s = decimal(n);
        assert(s == seq![digit_char(n)]);
        assert(s.subrange(0, 0) =~= Seq::<char>::empty());
        assert(decimal_value(Seq::<char>::empty()) == 0);
        assert(decimal_value(s) == decimal_value(s.subrange(0, 0)) * 10 + digit_value(s[0]));
    } else {
        let q = n / 10;
        let r = n % 10;
        decimal_reads_back(q);
        lemma_digit_char(r);
        let d = decimal(q);
        let s = decimal(n);
        assert(s == d.push(digit_char(r)));
        assert(s.subrange(0, s.len() - 1) =~= d);
        assert(q * 10 + r == n);
        assert(decimal_value(s) == decimal_value(d) * 10 + digit_value(digit_char(r)));
        assert forall|m: int| 0 <= m < s.len() implies '0' <= #[trigger] s[m] && s[m] <= '9' by {
            if m < d.len() {
                assert(s[m] == d[m]);
            }
        }
        assert(s[0] == d[0]);
    }
}

/// The URL of a listing page carries the page size and the offset as
/// numbers written the usual way, and the API key as given.
pub proof fn page_url_reads_back(limit: nat, offset: nat, api_key: Seq<char>)
    ensures
        exists|dl: Seq<char>, dof: Seq<char>|
            #![trigger decimal_value(dl), decimal_value(dof)]
            {
                &&& ridb_page_url(limit, offset, api_key)
                    == "https://ridb.recreation.gov/api/v1/facilities?state=CO&facilitytype=Campground&limit="@
                    + dl + "&offset="@ + dof + "&apikey="@ + api_key
                &&& is_canonical_decimal(dl)
                &&& decimal_value(dl) == limit
                &&& is_canonical_decimal(dof)
                &&& decimal_value(dof) == offset
            },
{
    decimal_reads_back(limit);
    decimal_reads_back(offset);
    let dl = decimal(limit);
    let dof = decimal(offset);
    assert(decimal_value(dl) == limit && decimal_value(dof) == offset);
}

// ---------------------------------------------------------------------------
// Facilities
// ---------------------------------------------------------------------------

/// A listing entry carries the facility's id, name and type description
/// (not its HTML description), each empty where the facility has none.
pub proof fn result_entry_fields(f: Facility, r: FacilityResult)
    requires
        is_result_of(f, r),
    ensures
        match f.facility_id {
            Some(t) => r.id@ == t@,
            None => r.id@.len() == 0,
        },
        match f.facility_name {
            Some(t) => r.name@ == t@,
            None => r.name@.len() == 0,
        },
        match f.facility_type_description {
            Some(t) => r.description@ == t@,
            None => r.description@.len() == 0,
        },
{
}

/// The embedding text holds the whole name, the whole cleaned description
/// and the whole keywords, in that order, each pair separated by one space.
pub proof fn embedding_text_keeps_every_part(
    name: Seq<char>,
    description: Seq<char>,
    keywords: Seq<char>,
)
    ensures
        ({
            let e = embedding_text_of(name, description, keywords);
            let a = name.len() as int;
            let b = a + 1 + description.len();
            &&& e.len() == name.len() + description.len() + keywords.len() + 2
            &&& e.subrange(0, a) == name
            &&& e[a] == ' '
            &&& e.subrange(a + 1, b) == description
            &&& e[b] == ' '
            &&& e.subrange(b + 1, e.len() as int) == keywords
        }),
{
    let e = embedding_text_of(name, description, keywords);
    let a = name.len() as int;
    let b = a + 1 + description.len();
    assert(e.subrange(0, a) =~= name);
    assert(e.subrange(a + 1, b) =~= description);
    assert(e.subrange(b + 1, e.len() as int) =~= keywords);
}

// ---------------------------------------------------------------------------
// The search query
// ---------------------------------------------------------------------------

/// `p` with the pieces `x` put in at position `i`.
pub open spec fn put_in(p: Seq<PartModel>, i: int, x: Seq<PartModel>) -> Seq<PartModel> {
    p.subrange(0, i) + x + p.subrange(i, p.len() as int)
}

/// The text is given and not empty.
pub open spec fn given(o: Option<Seq<char>>) -> bool {
    o matches Some(s) && s.len() > 0
}

/// Without filters, the query selects from the facilities, orders by the
/// distance to the search embedding and keeps fifty rows.
pub proof fn unfiltered_search_query()
    ensures
        search_plan(None, None, false) == seq![
            PartModel::Sql("SELECT id, name, description FROM facilities WHERE 1=1 "@),
            PartModel::Sql(" ORDER BY embedding <=> "@),
            PartModel::Bind(BindModel::Embedding),
            PartModel::Sql(" LIMIT 50"@),
        ],
{
    assert(search_plan(None, None, false) =~= seq![
        PartModel::Sql("SELECT id, name, description FROM facilities WHERE 1=1 "@),
        PartModel::Sql(" ORDER BY embedding <=> "@),
        PartModel::Bind(BindModel::Embedding),
        PartModel::Sql(" LIMIT 50"@),
    ]);
}

/// A given state adds, right after the selection and whatever the other
/// filters, a comparison with the upper-cased state; an empty one adds
/// nothing.
pub proof fn state_filter_adds_its_comparison(
    state: Seq<char>,
    facility_type: Option<Seq<char>>,
    near: bool,
)
    ensures
        state.len() > 0 ==> search_plan(Some(state), facility_type, near) == put_in(
            search_plan(None, facility_type, near),
            1,
            seq![
                PartModel::Sql(" AND state = "@),
                PartModel::Bind(BindModel::Text(unicode_uppercase(state))),
            ],
        ),
        state.len() == 0 ==> search_plan(Some(state), facility_type, near) == search_plan(
            None,
            facility_type,
            near,
        ),
{
    let base = search_plan(None, facility_type, near);
    if state.len() > 0 {
        assert(search_plan(Some(state), facility_type, near) =~= put_in(
            base,
            1,
            seq![
                PartModel::Sql(" AND state = "@),
                PartModel::Bind(BindModel::Text(unicode_uppercase(state))),
            ],
        ));
    } else {
        assert(search_plan(Some(state), facility_type, near) =~= base);
    }
}

/// A given type adds, right after the selection and the state comparison
/// (if any), a case-insensitive match of `%type%`, whatever the other
/// filters; an empty one adds nothing.
pub proof fn type_filter_adds_its_match(
    state: Option<Seq<char>>,
    facility_type: Seq<char>,
    near: bool,
)
    ensures
        facility_type.len() > 0 ==> search_plan(state, Some(facility_type), near) == put_in(
            search_plan(state, None, near),
            if given(state) {
                3
            } else {
                1
            },
            seq![
                PartModel::Sql(" AND type ILIKE "@),
                PartModel::Bind(BindModel::Text(seq!['%'] + facility_type + seq!['%'])),
            ],
        ),
        facility_type.len() == 0 ==> search_plan(state, Some(facility_type), near) == search_plan(
            state,
            None,
            near,
        ),
{
    let base = search_plan(state, None, near);
    if facility_type.len() > 0 {
        let i: int = if given(state) {
            3
        } else {
            1
        };
        assert(search_plan(state, Some(facility_type), near) =~= put_in(
            base,
            i,
            seq![
                PartModel::Sql(" AND type ILIKE "@),
                PartModel::Bind(BindModel::Text(seq!['%'] + facility_type + seq!['%'])),
            ],
        ));
    } else {
        assert(search_plan(state, Some(facility_type), near) =~= base);
    }
}

/// A search around a centre adds, just before the ordering, the condition
/// that the great-circle distance from the centre is within the radius.
pub proof fn radius_filter_adds_its_distance(
    state: Option<Seq<char>>,
    facility_type: Option<Seq<char>>,
)
    ensures
        ({
            let p = search_plan(state, facility_type, false);
            search_plan(state, facility_type, true) == put_in(
                p,
                p.len() - 3,
                seq![
                    PartModel::Sql(" AND (3959 * acos(LEAST(1.0, cos(radians("@),
                    PartModel::Bind(BindModel::Latitude),
                    PartModel::Sql(")) * cos(radians(lat)) * cos(radians(lon) - radians("@),
                    PartModel::Bind(BindModel::Longitude),
                    PartModel::Sql(")) + sin(radians("@),
                    PartModel::Bind(BindModel::Latitude),
                    PartModel::Sql(")) * sin(radians(lat))))) <= "@),
                    PartModel::Bind(BindModel::RadiusMiles),
                ],
            )
        }),
{
    let p = search_plan(state, facility_type, false);
    assert(search_plan(state, facility_type, true) =~= put_in(
        p,
        p.len() - 3,
        seq![
            PartModel::Sql(" AND (3959 * acos(LEAST(1.0, cos(radians("@),
            PartModel::Bind(BindModel::Latitude),
            PartModel::Sql(")) * cos(radians(lat)) * cos(radians(lon) - radians("@),
            PartModel::Bind(BindModel::Longitude),
            PartModel::Sql(")) + sin(radians("@),
            PartModel::Bind(BindModel::Latitude),
            PartModel::Sql(")) * sin(radians(lat))))) <= "@),
            PartModel::Bind(BindModel::RadiusMiles),
        ],
    ));
}

} // verus!
