use reqq::env::{Env, EnvError};
use reqq::json::JsonValue;
use reqq::request::{Request, RequestError};

fn loaded_env(path: &str, text: &str) -> Env {
    let mut e = Env::new(path.to_string());
    e.load(Some(text.to_string())).unwrap();
    e
}

fn loaded_req(text: &str) -> Request {
    let mut r = Request::new("/repo/req.txt".to_string());
    r.load(Some(text.to_string())).unwrap();
    r
}

#[test]
fn no_environment_passthrough() {
    let req = loaded_req("GET /x");
    assert_eq!(req.resolve(None).unwrap(), "GET /x");
}

#[test]
fn no_environment_keeps_placeholders() {
    let req = loaded_req("GET /{{host}}/x");
    assert_eq!(req.resolve(None).unwrap(), "GET /{{host}}/x");
}

#[test]
fn substitution_correctness() {
    let env = loaded_env("/repo/envs/prod.json", "{\"host\": \"example.com\"}");
    let req = loaded_req("GET https://{{host}}/path");
    assert_eq!(req.resolve(Some(&env)).unwrap(), "GET https://example.com/path");
}

#[test]
fn missing_key_all_or_nothing() {
    let env = loaded_env("/repo/envs/prod.json", "{}");
    let req = loaded_req("{{missing}}");
    let err = req.resolve(Some(&env)).unwrap_err();
    assert_eq!(err, RequestError::MissingKey("missing".to_string()));
}

#[test]
fn repeated_placeholder_consistency() {
    let env = loaded_env("/repo/envs/prod.json", "{\"a\":\"x\"}");
    let req = loaded_req("{{a}}-{{a}}");
    assert_eq!(req.resolve(Some(&env)).unwrap(), "x-x");
}

#[test]
fn whitespace_inside_delimiters() {
    let env = loaded_env("/repo/envs/prod.json", "{\"host\":\"h\"}");
    let req = loaded_req("GET {{  host\t}}");
    assert_eq!(req.resolve(Some(&env)).unwrap(), "GET h");
}

#[test]
fn dotted_key_path() {
    let env = loaded_env("/repo/envs/prod.json", "{\"a\":{\"b\":\"c\"}}");
    let req = loaded_req("{{a.b}}");
    assert_eq!(req.resolve(Some(&env)).unwrap(), "c");
}

#[test]
fn scalar_forms_stringified() {
    let env = loaded_env(
        "/repo/envs/prod.json",
        "{\"n\": 5, \"b\": true, \"z\": null, \"f\": 1.5}",
    );
    let req = loaded_req("{{n}} {{b}} {{z}} {{f}}");
    assert_eq!(req.resolve(Some(&env)).unwrap(), "5 true null 1.5");
}

#[test]
fn non_scalar_value_rejected() {
    let env = loaded_env("/repo/envs/prod.json", "{\"a\":{\"b\":1}}");
    let req = loaded_req("{{a}}");
    let err = req.resolve(Some(&env)).unwrap_err();
    assert_eq!(err, RequestError::NonScalarKey("a".to_string()));
}

#[test]
fn unterminated_placeholder_rejected() {
    let env = loaded_env("/repo/envs/prod.json", "{\"x\":\"1\"}");
    let req = loaded_req("abc{{x");
    let err = req.resolve(Some(&env)).unwrap_err();
    assert_eq!(err, RequestError::MalformedTemplate(3));
}

#[test]
fn template_without_placeholders_verbatim() {
    let env = loaded_env("/repo/envs/prod.json", "{\"x\":\"1\"}");
    let req = loaded_req("plain text, no markers");
    assert_eq!(req.resolve(Some(&env)).unwrap(), "plain text, no markers");
}

#[test]
fn empty_template_resolves_empty() {
    let env = loaded_env("/repo/envs/prod.json", "{}");
    let req = loaded_req("");
    assert_eq!(req.resolve(Some(&env)).unwrap(), "");
}

#[test]
fn parse_error_surfaces() {
    let env = loaded_env("/repo/envs/prod.json", "not json at all");
    let req = loaded_req("GET /x");
    let err = req.resolve(Some(&env)).unwrap_err();
    assert!(matches!(
        err,
        RequestError::EnvError(EnvError::ParseError(_))
    ));
}

#[test]
fn idempotent_env_load() {
    let mut env = Env::new("/repo/envs/prod.json".to_string());
    env.load(Some("{\"a\":1}".to_string())).unwrap();
    env.load(Some("{\"a\":2}".to_string())).unwrap();
    assert_eq!(env.fstr.as_deref(), Some("{\"a\":1}"));
    env.load(None).unwrap();
    assert_eq!(env.fstr.as_deref(), Some("{\"a\":1}"));
}

#[test]
fn idempotent_request_load() {
    let mut req = Request::new("/repo/req.txt".to_string());
    req.load(Some("first".to_string())).unwrap();
    req.load(Some("second".to_string())).unwrap();
    assert_eq!(req.fstr.as_deref(), Some("first"));
    req.load(None).unwrap();
    assert_eq!(req.fstr.as_deref(), Some("first"));
}

#[test]
fn load_without_text_fails() {
    let mut env = Env::new("/repo/envs/prod.json".to_string());
    assert_eq!(env.load(None).unwrap_err(), EnvError::ReadError);
    let mut req = Request::new("/repo/req.txt".to_string());
    assert_eq!(req.load(None).unwrap_err(), RequestError::ReadError);
}

#[test]
fn env_json_parses_document() {
    let env = loaded_env("/repo/envs/prod.json", "{\"k\":\"v\"}");
    let doc = env.json().unwrap();
    assert_eq!(
        doc,
        JsonValue::Obj(vec![("k".to_string(), JsonValue::Str("v".to_string()))])
    );
}

#[test]
fn resolution_does_not_mutate_environment() {
    let env = loaded_env("/repo/envs/prod.json", "{\"a\":\"x\"}");
    let req = loaded_req("{{a}}");
    assert_eq!(req.resolve(Some(&env)).unwrap(), "x");
    assert_eq!(env.fstr.as_deref(), Some("{\"a\":\"x\"}"));
    assert_eq!(req.resolve(Some(&env)).unwrap(), "x");
}

#[test]
fn substituted_text_not_rescanned() {
    let env = loaded_env("/repo/envs/prod.json", "{\"a\":\"{{b}}\",\"b\":\"1\"}");
    let req = loaded_req("{{a}}");
    assert_eq!(req.resolve(Some(&env)).unwrap(), "{{b}}");
}
