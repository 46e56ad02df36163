//! The search endpoint: checking the search text, and the SQL query that
//! ranks facilities by the distance of their embedding to the embedding of
//! that text, under the optional filters.

use vstd::prelude::*;

use crate::api::ApiError;
use crate::html::{trim_in, trim_ws};
use crate::text::{chars_of, push_str, string_of};

verus! {

/// What `str::to_uppercase` gives for a text (Unicode upper-casing).
pub uninterp spec fn unicode_uppercase(s: Seq<char>) -> Seq<char>;

/// `str::to_uppercase`. Claimed: the result is a fixed function of the
/// text (`unicode_uppercase`); what that function is, Unicode's case
/// tables say, and nothing here states them.
#[verifier::external_body]
fn to_uppercase(s: &str) -> (r: String)
    ensures
        r@ == unicode_uppercase(s@),
{
    s.to_uppercase()
}

/// A value bound to a placeholder of the query.
pub enum BindValue {
    /// A text.
    Text(String),
    /// The latitude of the search centre.
    Latitude,
    /// The longitude of the search centre.
    Longitude,
    /// The search radius, in miles.
    RadiusMiles,
    /// The embedding of the search text.
    Embedding,
}

/// One piece of the query: SQL text, or a bound value.
pub enum QueryPart {
    Sql(String),
    Bind(BindValue),
}

/// A bound value, as contracts speak of it.
pub enum BindModel {
    Text(Seq<char>),
    Latitude,
    Longitude,
    RadiusMiles,
    Embedding,
}

/// A piece of the query, as contracts speak of it.
pub enum PartModel {
    Sql(Seq<char>),
    Bind(BindModel),
}

impl View for QueryPart {
    type V = PartModel;

    open spec fn view(&self) -> PartModel {
        match self {
            QueryPart::Sql(s) => PartModel::Sql(s@),
            QueryPart::Bind(b) => PartModel::Bind(
                match b {
                    BindValue::Text(t) => BindModel::Text(t@),
                    BindValue::Latitude => BindModel::Latitude,
                    BindValue::Longitude => BindModel::Longitude,
                    BindValue::RadiusMiles => BindModel::RadiusMiles,
                    BindValue::Embedding => BindModel::Embedding,
                },
            ),
        }
    }
}

/// The search text as the endpoint uses it: trimmed, and refused when
/// nothing is left.
pub fn search_text(q: &str) -> (r: Result<String, ApiError>)
    ensures
        match r {
            Ok(t) => t@ == trim_ws(q@) && t@.len() > 0,
            Err(e) => e == ApiError::EmptyQuery && trim_ws(q@).len() == 0,
        },
{
    let chars = chars_of(q);
    let trimmed = trim_in(&chars);
    if trimmed.len() == 0 {
        Err(ApiError::EmptyQuery)
    } else {
        Ok(string_of(&trimmed))
    }
}

/// An optional filter that is given and not empty.
pub open spec fn filter_given(f: Option<Seq<char>>) -> bool {
    f matches Some(s) && s.len() > 0
}

pub open spec fn option_view(o: Option<String>) -> Option<Seq<char>> {
    match o {
        Some(s) => Some(s@),
        None => None,
    }
}

/// The start of every search query.
pub open spec fn select_sql() -> Seq<char> {
    "SELECT id, name, description FROM facilities WHERE 1=1 "@
}

/// The state filter: the state, upper-cased, must match.
pub open spec fn state_parts(state: Option<Seq<char>>) -> Seq<PartModel> {
    match state {
        Some(s) if s.len() > 0 => seq![
            PartModel::Sql(" AND state = "@),
            PartModel::Bind(BindModel::Text(unicode_uppercase(s))),
        ],
        _ => Seq::empty(),
    }
}

/// The type filter: the type must contain the given text, in any case.
pub open spec fn type_parts(facility_type: Option<Seq<char>>) -> Seq<PartModel> {
    match facility_type {
        Some(t) if t.len() > 0 => seq![
            PartModel::Sql(" AND type ILIKE "@),
            PartModel::Bind(BindModel::Text(seq!['%'] + t + seq!['%'])),
        ],
        _ => Seq::empty(),
    }
}

/// The radius filter: the great-circle distance, in miles, from the
/// centre must not exceed the radius.
pub open spec fn radius_parts(near: bool) -> Seq<PartModel> {
    if near {
        seq![
            PartModel::Sql(" AND (3959 * acos(LEAST(1.0, cos(radians("@),
            PartModel::Bind(BindModel::Latitude),
            PartModel::Sql(")) * cos(radians(lat)) * cos(radians(lon) - radians("@),
            PartModel::Bind(BindModel::Longitude),
            PartModel::Sql(")) + sin(radians("@),
            PartModel::Bind(BindModel::Latitude),
            PartModel::Sql(")) * sin(radians(lat))))) <= "@),
            PartModel::Bind(BindModel::RadiusMiles),
        ]
    } else {
        Seq::empty()
    }
}

/// The ranking: nearest embedding first, at most fifty rows.
pub open spec fn ranking_parts() -> Seq<PartModel> {
    seq![
        PartModel::Sql(" ORDER BY embedding <=> "@),
        PartModel::Bind(BindModel::Embedding),
        PartModel::Sql(" LIMIT 50"@),
    ]
}

/// The whole search query, filters in the order state, type, radius.
pub open spec fn search_plan(
    state: Option<Seq<char>>,
    facility_type: Option<Seq<char>>,
    near: bool,
) -> Seq<PartModel> {
    seq![PartModel::Sql(select_sql())] + state_parts(state) + type_parts(facility_type)
        + radius_parts(near) + ranking_parts()
}

fn sql(s: &str) -> (p: QueryPart)
    ensures
        p@ == PartModel::Sql(s@),
{
    QueryPart::Sql(s.to_owned())
}

/// The query that ranks facilities for a search: an optional state filter
/// (compared upper-cased), an optional type filter (a case-insensitive
/// substring match), an optional radius filter around a centre (`near`
/// says whether latitude, longitude and radius are all given), then the
/// order by embedding distance and the limit of fifty rows. Empty filter
/// texts are ignored.
pub fn search_query(state: &Option<String>, facility_type: &Option<String>, near: bool) -> (r:
    Vec<QueryPart>)
    ensures
        r@.map_values(|p: QueryPart| p@) == search_plan(
            option_view(*state),
            option_view(*facility_type),
            near,
        ),
{
    let mut parts: Vec<QueryPart> = Vec::new();
    parts.push(sql("SELECT id, name, description FROM facilities WHERE 1=1 "));
    let ghost g0 = parts@.map_values(|p: QueryPart| p@);
    assert(g0 =~= seq![PartModel::Sql(select_sql())]);

    if let Some(s) = state {
        if !s.as_str().is_empty() {
            parts.push(sql(" AND state = "));
            parts.push(QueryPart::Bind(BindValue::Text(to_uppercase(s.as_str()))));
        }
    }
    let ghost g1 = parts@.map_values(|p: QueryPart| p@);
    assert(g1 =~= g0 + state_parts(option_view(*state)));

    if let Some(t) = facility_type {
        if !t.as_str().is_empty() {
            let mut pattern = String::new();
            push_str(&mut pattern, "%");
            push_str(&mut pattern, t.as_str());
            push_str(&mut pattern, "%");
            proof {
                reveal_strlit("%");
                assert("%"@ =~= seq!['%']);
                assert(pattern@ =~= seq!['%'] + t@ + seq!['%']);
            }
            parts.push(sql(" AND type ILIKE "));
            parts.push(QueryPart::Bind(BindValue::Text(pattern)));
        }
    }
    let ghost g2 = parts@.map_values(|p: QueryPart| p@);
    assert(g2 =~= g1 + type_parts(option_view(*facility_type)));

    if near {
        parts.push(sql(" AND (3959 * acos(LEAST(1.0, cos(radians("));
        parts.push(QueryPart::Bind(BindValue::Latitude));
        parts.push(sql(")) * cos(radians(lat)) * cos(radians(lon) - radians("));
        parts.push(QueryPart::Bind(BindValue::Longitude));
        parts.push(sql(")) + sin(radians("));
        parts.push(QueryPart::Bind(BindValue::Latitude));
        parts.push(sql(")) * sin(radians(lat))))) <= "));
        parts.push(QueryPart::Bind(BindValue::RadiusMiles));
    }
    let ghost g3 = parts@.map_values(|p: QueryPart| p@);
    assert(g3 =~= g2 + radius_parts(near));

    parts.push(sql(" ORDER BY embedding <=> "));
    parts.push(QueryPart::Bind(BindValue::Embedding));
    parts.push(sql(" LIMIT 50"));
    let ghost g4 = parts@.map_values(|p: QueryPart| p@);
    assert(g4 =~= g3 + ranking_parts());
    parts
}

} // verus!
