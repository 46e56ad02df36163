use backend::api::ApiError;
use backend::search::{search_query, search_text, BindValue, QueryPart};

/// The SQL text with `$n` placeholders, and the bound values in order.
fn render(parts: &[QueryPart]) -> (String, Vec<String>) {
    let mut sql = String::new();
    let mut binds = Vec::new();
    for p in parts {
        match p {
            QueryPart::Sql(s) => sql.push_str(s),
            QueryPart::Bind(b) => {
                binds.push(match b {
                    BindValue::Text(t) => format!("text:{}", t),
                    BindValue::Latitude => "lat".to_string(),
                    BindValue::Longitude => "lon".to_string(),
                    BindValue::RadiusMiles => "radius".to_string(),
                    BindValue::Embedding => "embedding".to_string(),
                });
                sql.push_str(&format!("${}", binds.len()));
            }
        }
    }
    (sql, binds)
}

#[test]
fn search_text_is_trimmed() {
    assert_eq!(search_text("  lake views \n").unwrap(), "lake views");
}

#[test]
fn empty_search_text_is_refused_with_400() {
    let e = search_text(" \t ").unwrap_err();
    assert_eq!(e, ApiError::EmptyQuery);
    assert_eq!(e.status(), 400);
    assert_eq!(e.message(), "q must not be empty");
    assert_eq!(search_text("").unwrap_err(), ApiError::EmptyQuery);
}

#[test]
fn query_without_filters() {
    let (sql, binds) = render(&search_query(&None, &None, false));
    assert_eq!(
        sql,
        "SELECT id, name, description FROM facilities WHERE 1=1  ORDER BY embedding <=> $1 LIMIT 50"
    );
    assert_eq!(binds, vec!["embedding"]);
}

#[test]
fn query_with_all_filters() {
    let (sql, binds) = render(&search_query(
        &Some("co".to_string()),
        &Some("Camp".to_string()),
        true,
    ));
    assert_eq!(
        sql,
        "SELECT id, name, description FROM facilities WHERE 1=1  AND state = $1 AND type ILIKE $2 \
         AND (3959 * acos(LEAST(1.0, cos(radians($3)) * cos(radians(lat)) * cos(radians(lon) - radians($4)) \
         + sin(radians($5)) * sin(radians(lat))))) <= $6 ORDER BY embedding <=> $7 LIMIT 50"
    );
    assert_eq!(
        binds,
        vec!["text:CO", "text:%Camp%", "lat", "lon", "lat", "radius", "embedding"]
    );
}

#[test]
fn empty_filters_are_ignored() {
    let (sql, binds) = render(&search_query(&Some(String::new()), &Some(String::new()), false));
    assert_eq!(
        sql,
        "SELECT id, name, description FROM facilities WHERE 1=1  ORDER BY embedding <=> $1 LIMIT 50"
    );
    assert_eq!(binds.len(), 1);
}

#[test]
fn state_is_upper_cased() {
    let (_, binds) = render(&search_query(&Some("straße".to_string()), &None, false));
    assert_eq!(binds[0], "text:STRASSE");
}

#[test]
fn errors_answer_with_their_status_and_message() {
    let all = [
        (ApiError::MissingApiKey, 500, "RIDB_API_KEY not set"),
        (ApiError::UpstreamUnreachable, 502, "Failed to reach RIDB API"),
        (ApiError::UpstreamUnparsable, 500, "Failed to parse RIDB response"),
        (ApiError::EmptyQuery, 400, "q must not be empty"),
        (ApiError::ModelUnavailable, 500, "Embedding model unavailable"),
        (ApiError::EmbeddingFailed, 500, "Failed to generate embedding"),
        (ApiError::DatabaseFailed, 500, "Database query failed"),
    ];
    for (e, status, message) in all {
        assert_eq!(e.status(), status);
        assert_eq!(e.message(), message);
    }
}
