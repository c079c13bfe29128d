use stytsch::query::{build_search_query, SqlParam};
use stytsch::schema::SearchFilter;

const HEAD: &str = "SELECT id,timestamp,duration,exit,command,cwd,session,hostname,deleted_at
             FROM history WHERE deleted_at IS NULL";

#[test]
fn unfiltered_search_pages_newest_first() {
    let q = build_search_query(&SearchFilter::new(100));
    assert_eq!(q.sql, format!("{HEAD} ORDER BY timestamp DESC LIMIT 100 OFFSET 0"));
    assert!(q.params.is_empty());
}

#[test]
fn every_condition_gets_the_next_parameter_number() {
    let f = SearchFilter {
        query: Some("build".to_string()),
        cwd: Some(r"C:\proj".to_string()),
        hostname: Some("laptop".to_string()),
        exit: Some(0),
        limit: 5,
        offset: 15,
        ..Default::default()
    };
    let q = build_search_query(&f);
    assert_eq!(
        q.sql,
        format!(
            "{HEAD} AND command LIKE ?1 AND cwd = ?2 AND hostname = ?3 AND exit = ?4 ORDER BY timestamp DESC LIMIT 5 OFFSET 15"
        )
    );
    assert_eq!(q.params.len(), 4);
    assert!(matches!(&q.params[0], SqlParam::Text(s) if s == "%build%"));
    assert!(matches!(&q.params[1], SqlParam::Text(s) if s == r"C:\proj"));
    assert!(matches!(&q.params[2], SqlParam::Text(s) if s == "laptop"));
    assert!(matches!(&q.params[3], SqlParam::Integer(0)));
}

#[test]
fn numbering_skips_absent_conditions() {
    let f = SearchFilter { hostname: Some("server".to_string()), exit: Some(127), limit: 10, ..Default::default() };
    let q = build_search_query(&f);
    assert_eq!(
        q.sql,
        format!("{HEAD} AND hostname = ?1 AND exit = ?2 ORDER BY timestamp DESC LIMIT 10 OFFSET 0")
    );
    assert_eq!(q.params.len(), 2);
    assert!(matches!(&q.params[1], SqlParam::Integer(127)));
}

#[test]
fn default_filter_is_empty() {
    let f = SearchFilter::default();
    assert!(f.query.is_none() && f.cwd.is_none() && f.hostname.is_none() && f.exit.is_none());
    assert_eq!(f.limit, 0);
    assert_eq!(f.offset, 0);
    let n = SearchFilter::new(5000);
    assert_eq!(n.limit, 5000);
    assert!(n.session.is_none());
}
