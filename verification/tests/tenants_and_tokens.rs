use base64::Engine;
use serde_json::Value;
use v8_matrix::jwt::{
    generate_jwt, jwt_outcome, jwt_secret, secret_warning, GenerateJwtRequest, SecretWarning,
    DEFAULT_SECRET,
};
use v8_matrix::tenant::tenant_id_from_org;

const SECRET: &str = "0123456789abcdef0123456789abcdef";

fn request(org: &str, roles: &[&str], custom: Vec<(String, Value)>) -> GenerateJwtRequest {
    GenerateJwtRequest {
        username: "testuser".to_string(),
        org: org.to_string(),
        roles: roles.iter().map(|r| r.to_string()).collect(),
        custom,
    }
}

fn part(token: &str, n: usize) -> Value {
    let b64 = token.split('.').nth(n).unwrap();
    let bytes = base64::engine::general_purpose::URL_SAFE_NO_PAD.decode(b64).unwrap();
    serde_json::from_slice(&bytes).unwrap()
}

#[test]
fn test_generate_jwt() {
    let response = generate_jwt(request("testorg", &["user"], Vec::new()), 1_700_000_000, SECRET);
    let token = response.unwrap().token;
    assert!(!token.is_empty());
    let claims = part(&token, 1);
    assert_eq!(claims["tenant_id"], "testorg");
}

#[test]
fn tokens_carry_the_standard_claims() {
    let response = generate_jwt(request("Acme Corp", &["a", "b"], Vec::new()), 1000, SECRET);
    let token = response.unwrap().token;
    assert_eq!(token.split('.').count(), 3);
    let header = part(&token, 0);
    assert_eq!(header["alg"], "HS256");
    assert_eq!(header["typ"], "JWT");
    let claims = part(&token, 1);
    assert_eq!(claims["sub"], "testuser");
    assert_eq!(claims["org"], "Acme Corp");
    assert_eq!(claims["tenant_id"], "acme-corp");
    assert_eq!(claims["roles"], Value::from(vec!["a", "b"]));
    assert_eq!(claims["iat"], 1000);
    assert_eq!(claims["exp"], 87_400);
    assert_eq!(claims.as_object().unwrap().len(), 6);
}

#[test]
fn tokens_without_roles_have_no_roles_claim() {
    let token = generate_jwt(request("x", &[], Vec::new()), 0, SECRET).unwrap().token;
    assert!(part(&token, 1).get("roles").is_none());
}

#[test]
fn tokens_are_signed_with_the_secret() {
    let token = generate_jwt(request("x", &[], Vec::new()), 0, SECRET).unwrap().token;
    let mut validation = jsonwebtoken::Validation::new(jsonwebtoken::Algorithm::HS256);
    validation.validate_exp = false;
    let good = jsonwebtoken::DecodingKey::from_secret(SECRET.as_bytes());
    let bad = jsonwebtoken::DecodingKey::from_secret(b"something else");
    assert!(jsonwebtoken::decode::<Value>(&token, &good, &validation).is_ok());
    assert!(jsonwebtoken::decode::<Value>(&token, &bad, &validation).is_err());
}

#[test]
fn custom_claims_win() {
    let custom = vec![
        ("sub".to_string(), Value::from("someone else")),
        ("plan".to_string(), Value::from(3u64)),
    ];
    let token = generate_jwt(request("x", &[], custom), 0, SECRET).unwrap().token;
    let claims = part(&token, 1);
    assert_eq!(claims["sub"], "someone else");
    assert_eq!(claims["plan"], 3);
    assert_eq!(claims["org"], "x");
}

#[test]
fn custom_claims_have_no_order() {
    let a = ("a".to_string(), Value::from(1u64));
    let b = ("b".to_string(), Value::Null);
    let one = generate_jwt(request("x", &[], vec![a.clone(), b.clone()]), 5, SECRET).unwrap();
    let two = generate_jwt(request("x", &[], vec![b, a]), 5, SECRET).unwrap();
    assert_eq!(one.token, two.token);
}

#[test]
fn a_failing_encoder_is_reported() {
    let e = jwt_outcome(Err("no key".to_string())).unwrap_err();
    assert_eq!(e.status, 500);
    assert_eq!(e.error, "JWT encode failed: no key");
    assert_eq!(jwt_outcome(Ok("t".to_string())).unwrap().token, "t");
}

#[test]
fn missing_secrets_have_a_default() {
    let (secret, warnings) = jwt_secret(None);
    assert_eq!(secret, DEFAULT_SECRET);
    assert_eq!(warnings, vec![SecretWarning::NotSet]);
    assert_eq!(
        secret_warning(SecretWarning::NotSet),
        "WARNING: JWT_SECRET not set - using insecure default (change in production!)"
    );
}

#[test]
fn short_secrets_are_warned_of() {
    assert_eq!(jwt_secret(Some("short".to_string())).1, vec![SecretWarning::TooShort]);
    assert_eq!(jwt_secret(Some("x".repeat(31))).1, vec![SecretWarning::TooShort]);
    assert_eq!(jwt_secret(Some("x".repeat(32))), ("x".repeat(32), vec![]));
    assert_eq!(jwt_secret(Some("é".repeat(16))).1, vec![]);
    assert_eq!(
        secret_warning(SecretWarning::TooShort),
        "WARNING: JWT_SECRET is too short for security"
    );
}

#[test]
fn tenant_ids_are_slugs() {
    assert_eq!(tenant_id_from_org("testorg"), "testorg");
    assert_eq!(tenant_id_from_org("  Acme, Inc.  "), "acme--inc");
    assert_eq!(tenant_id_from_org("Zürich 8"), "z-rich-8");
    assert_eq!(tenant_id_from_org("--A--B--"), "a--b");
}

#[test]
fn nameless_organisations_are_tenants() {
    assert_eq!(tenant_id_from_org(""), "tenant");
    assert_eq!(tenant_id_from_org(" \t "), "tenant");
    assert_eq!(tenant_id_from_org("--!--"), "tenant");
}

#[test]
fn tenant_ids_are_stable() {
    for org in ["Acme, Inc.", "", "ÄÖÜ", "a-b", "X9"] {
        let id = tenant_id_from_org(org);
        assert_eq!(tenant_id_from_org(&id), id);
        assert_eq!(tenant_id_from_org(&org.to_ascii_lowercase()), id);
        assert_eq!(tenant_id_from_org(&org.to_ascii_uppercase()), id);
    }
}

#[test]
fn tenant_ids_ignore_surroundings() {
    for around in [" ", "--", "\"", " \u{e9}. "] {
        assert_eq!(tenant_id_from_org(&format!("{around}Acme, Inc{around}")), "acme--inc");
        assert_eq!(tenant_id_from_org(&format!("{around}{around}")), "tenant");
    }
}
