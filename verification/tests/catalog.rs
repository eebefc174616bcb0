use reqq::env::Env;
use reqq::reqq::{Reqq, ReqqError};
use reqq::request::{Request, RequestError};
use reqq::text::derived_name;

fn sample_catalog() -> Reqq {
    let paths = vec![
        "/repo/foo/bar".to_string(),
        "/repo/baz.json".to_string(),
        "/repo/envs/prod.json".to_string(),
        "/repo/envs/dev.json".to_string(),
    ];
    Reqq::new("/repo".to_string(), paths).unwrap()
}

#[test]
fn request_name_derivation() {
    let req = Request::new("/repo/foo/bar".to_string());
    assert_eq!(req.name("/repo".to_string()), "foo/bar");
}

#[test]
fn environment_name_derivation() {
    let env = Env::new("/repo/envs/prod.json".to_string());
    assert_eq!(env.name("/repo".to_string()), "prod");
}

#[test]
fn derived_name_strips_extension_uniformly() {
    assert_eq!(derived_name("/repo/baz.json", "/repo"), "baz");
    assert_eq!(derived_name("/repo/envs/nested/a.json", "/repo"), "nested/a");
    assert_eq!(derived_name("/elsewhere/x", "/repo"), "elsewhere/x");
}

#[test]
fn catalog_partitions_discovered_files() {
    let cat = sample_catalog();
    assert_eq!(cat.list_reqs(), vec!["foo/bar".to_string(), "baz".to_string()]);
    assert_eq!(cat.list_envs(), vec!["prod".to_string(), "dev".to_string()]);
}

#[test]
fn partition_excludes_near_miss_paths() {
    let paths = vec![
        "/repo/envsy".to_string(),
        "/repo/envs/prod.json".to_string(),
    ];
    let cat = Reqq::new("/repo".to_string(), paths).unwrap();
    assert_eq!(cat.list_reqs(), vec!["envsy".to_string()]);
    assert_eq!(cat.list_envs(), vec!["prod".to_string()]);
}

#[test]
fn request_not_found() {
    let cat = sample_catalog();
    let err = cat
        .execute("nonexistent".to_string(), None, None, None)
        .unwrap_err();
    assert_eq!(err, ReqqError::RequestNotFound("nonexistent".to_string()));
}

#[test]
fn environment_not_found() {
    let cat = sample_catalog();
    let err = cat
        .execute(
            "foo/bar".to_string(),
            Some("nonexistent-env".to_string()),
            Some("GET {{host}}".to_string()),
            None,
        )
        .unwrap_err();
    assert_eq!(err, ReqqError::EnvNotFound("nonexistent-env".to_string()));
}

#[test]
fn execute_without_environment_returns_raw() {
    let cat = sample_catalog();
    let out = cat
        .execute(
            "foo/bar".to_string(),
            None,
            Some("GET /x".to_string()),
            None,
        )
        .unwrap();
    assert_eq!(out, "GET /x");
}

#[test]
fn execute_with_environment_substitutes() {
    let cat = sample_catalog();
    let out = cat
        .execute(
            "foo/bar".to_string(),
            Some("prod".to_string()),
            Some("GET https://{{host}}/path".to_string()),
            Some("{\"host\":\"example.com\"}".to_string()),
        )
        .unwrap();
    assert_eq!(out, "GET https://example.com/path");
}

#[test]
fn execute_unreadable_request_fails() {
    let cat = sample_catalog();
    let err = cat
        .execute("foo/bar".to_string(), None, None, None)
        .unwrap_err();
    assert_eq!(err, ReqqError::RequestError(RequestError::ReadError));
}

#[test]
fn execute_propagates_resolution_error() {
    let cat = sample_catalog();
    let err = cat
        .execute(
            "foo/bar".to_string(),
            Some("prod".to_string()),
            Some("{{missing}}".to_string()),
            Some("{}".to_string()),
        )
        .unwrap_err();
    assert_eq!(
        err,
        ReqqError::RequestError(RequestError::MissingKey("missing".to_string()))
    );
}

#[test]
fn lookup_returns_first_match() {
    let paths = vec!["/repo/a.json".to_string(), "/repo/a".to_string()];
    let cat = Reqq::new("/repo".to_string(), paths).unwrap();
    let req = cat.get_req("a".to_string()).unwrap();
    assert_eq!(req.fpath, "/repo/a.json");
}

#[test]
fn lookup_is_exact_and_case_sensitive() {
    let cat = sample_catalog();
    assert!(cat.get_req("foo/bar".to_string()).is_ok());
    assert!(cat.get_req("Foo/Bar".to_string()).is_err());
    assert!(cat.get_req("foo".to_string()).is_err());
    assert!(cat.get_env("prod".to_string()).is_ok());
    assert!(cat.get_env("PROD".to_string()).is_err());
}
