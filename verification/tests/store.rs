//! Behaviour of the store-side types: named statement lookup, header
//! extraction, and the two authorization checks.

use keyvault::ProjectKey;
use keyvault::Queries;
use keyvault::ReadAuth;
use keyvault::SearchInput;
use keyvault::WriteAuth;

fn sample_queries() -> Queries {
    Queries(vec![
        ("get_secret".to_string(), "SELECT secret_value FROM secrets".to_string()),
        ("delete_secret".to_string(), "DELETE FROM secrets".to_string()),
        ("get_secret".to_string(), "SELECT 0".to_string()),
    ])
}

#[test]
fn test_queries_get_present() {
    let q = sample_queries();
    assert_eq!(q.get("delete_secret").unwrap(), "DELETE FROM secrets");
}

#[test]
fn test_queries_get_first_match_wins() {
    let q = sample_queries();
    assert_eq!(q.get("get_secret").unwrap(), "SELECT secret_value FROM secrets");
}

#[test]
fn test_queries_get_missing() {
    let q = sample_queries();
    assert_eq!(q.get("upsert_secret").unwrap_err(), "Missing query 'upsert_secret'");
}

#[test]
fn test_read_auth_accepts_either_master_key() {
    assert!(ReadAuth::authorize(Some("read-key"), "read-key", "write-key").is_ok());
    assert!(ReadAuth::authorize(Some("write-key"), "read-key", "write-key").is_ok());
    assert!(ReadAuth::authorize(Some("wrong-key"), "read-key", "write-key").is_err());
    assert!(ReadAuth::authorize(None, "read-key", "write-key").is_err());
}

#[test]
fn test_write_auth_accepts_only_write_key() {
    assert!(WriteAuth::authorize(Some("write-key"), "write-key").is_ok());
    assert!(WriteAuth::authorize(Some("read-key"), "write-key").is_err());
    assert!(WriteAuth::authorize(None, "write-key").is_err());
}

#[test]
fn test_project_key_from_header() {
    match ProjectKey::from_header(Some("test_project".to_string())) {
        Ok(p) => assert_eq!(p.0, "test_project"),
        Err(()) => panic!("expected the project header to be accepted"),
    }
    assert!(ProjectKey::from_header(None).is_err());
}

#[test]
fn test_search_input_carries_optional_query() {
    let with_query = SearchInput { query: Some("mykey".to_string()) };
    assert_eq!(with_query.query.as_deref(), Some("mykey"));
    let without = SearchInput { query: None };
    assert!(without.query.is_none());
}
