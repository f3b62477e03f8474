//! Tokens for the users of an organisation.

use vstd::prelude::*;
use vstd::utf8::*;

use crate::encoding::encode_text;
use crate::server::{err, HttpError};
use crate::tenant;
use crate::tenant::tenant_id_from_org;
use crate::text::join2;

verus! {

// ---- claims ----

/// `serde_json::Value`, carried from the request and its parts to the token.
#[verifier::external_type_specification]
#[verifier::external_body]
pub struct ExValue(serde_json::Value);

/// `serde_json::Map`, the claims of a token.
#[verifier::external_type_specification]
#[verifier::external_body]
#[verifier::reject_recursive_types(K)]
#[verifier::reject_recursive_types(V)]
pub struct ExMap<K, V>(serde_json::Map<K, V>);

/// What a `serde_json::Map` holds: the value under each name.
pub uninterp spec fn json_entries(m: serde_json::Map<String, serde_json::Value>) -> Map<
    Seq<char>,
    serde_json::Value,
>;

/// `serde_json::Map::new`: a map that holds nothing.
#[verifier::external_body]
fn map_new() -> (m: serde_json::Map<String, serde_json::Value>)
    ensures
        forall|k: Seq<char>| !(#[trigger] json_entries(m).contains_key(k)),
{
    serde_json::Map::new()
}

/// `serde_json::Map::insert`: the value stands under the name, in place of the
/// one that stood there, if any; the rest stays.
#[verifier::external_body]
fn map_insert(
    m: &mut serde_json::Map<String, serde_json::Value>,
    name: String,
    value: serde_json::Value,
)
    ensures
        json_entries(*final(m)) == json_entries(*old(m)).insert(name@, value),
{
    m.insert(name, value);
}

/// The JSON string that holds a text.
pub uninterp spec fn json_string(s: Seq<char>) -> serde_json::Value;

/// `serde_json::Value::from` for a `String`: a JSON string, which depends on the
/// text alone.
#[verifier::external_body]
fn value_from_string(s: String) -> (v: serde_json::Value)
    ensures
        v == json_string(s@),
{
    serde_json::Value::from(s)
}

/// The JSON array of strings that holds the given texts.
pub uninterp spec fn json_strings(items: Seq<Seq<char>>) -> serde_json::Value;

/// `serde_json::Value::from` for a `Vec<String>`: a JSON array of strings, which
/// depends on the texts alone.
#[verifier::external_body]
fn value_from_strings(items: Vec<String>) -> (v: serde_json::Value)
    ensures
        v == json_strings(items.deep_view()),
{
    serde_json::Value::from(items)
}

/// The JSON number that holds an unsigned integer.
pub uninterp spec fn json_number(n: u64) -> serde_json::Value;

/// `serde_json::Value::from` for a `u64`: a JSON number, which depends on the
/// integer alone.
#[verifier::external_body]
fn value_from_u64(n: u64) -> (v: serde_json::Value)
    ensures
        v == json_number(n),
{
    serde_json::Value::from(n)
}

/// The token that `jsonwebtoken` makes of claims and a secret.
pub uninterp spec fn hs256_token(
    claims: Map<Seq<char>, serde_json::Value>,
    secret: Seq<u8>,
) -> Seq<char>;

/// `jsonwebtoken::encode` with the default header, which asks for HMAC with
/// SHA-256, and `EncodingKey::from_secret`. The claims are written in the order
/// of their names, so that the token depends on what the map holds and on the
/// secret alone, and it is not empty. With this algorithm and such a key the call
/// does not fail.
#[verifier::external_body]
fn jwt_encode(
    claims: &serde_json::Map<String, serde_json::Value>,
    secret: &[u8],
) -> (r: Result<String, String>)
    ensures
        r is Ok,
        r->Ok_0@ == hs256_token(json_entries(*claims), secret@),
        r->Ok_0@.len() > 0,
{
    let header = jsonwebtoken::Header::default();
    let key = jsonwebtoken::EncodingKey::from_secret(secret);
    jsonwebtoken::encode(&header, claims, &key).map_err(|e| e.to_string())
}

// ---- requests for tokens ----

/// A request for a token.
pub struct GenerateJwtRequest {
    pub username: String,
    pub org: String,
    pub roles: Vec<String>,
    /// Further claims, each under its own name.
    pub custom: Vec<(String, serde_json::Value)>,
}

/// The answer to such a request.
#[derive(Debug)]
pub struct JwtResponse {
    pub token: String,
}

/// For how many seconds a token is valid.
pub const TOKEN_LIFETIME: u64 = 86_400;

/// The claims that every token makes, for a token issued at `now`: who the user
/// is and where, the roles if there are any, and from when to when the token is
/// valid.
pub open spec fn standard_claims(
    username: Seq<char>,
    org: Seq<char>,
    roles: Seq<Seq<char>>,
    now: u64,
) -> Map<Seq<char>, serde_json::Value> {
    let who = Map::<Seq<char>, serde_json::Value>::empty().insert("sub"@, json_string(username)).insert(
        "org"@,
        json_string(org),
    ).insert("tenant_id"@, json_string(tenant::tenant_id(org)));
    let roled = if roles.len() > 0 {
        who.insert("roles"@, json_strings(roles))
    } else {
        who
    };
    roled.insert("iat"@, json_number(now)).insert("exp"@, json_number((now + TOKEN_LIFETIME) as u64))
}

/// Claims with further ones, which take the place of those of the same name.
pub open spec fn with_custom(
    claims: Map<Seq<char>, serde_json::Value>,
    custom: Seq<(String, serde_json::Value)>,
) -> Map<Seq<char>, serde_json::Value>
    decreases custom.len(),
{
    if custom.len() == 0 {
        claims
    } else {
        with_custom(claims, custom.drop_last()).insert(custom.last().0@, custom.last().1)
    }
}

/// All the claims of the token that answers a request.
pub open spec fn claims_of(req: GenerateJwtRequest, now: u64) -> Map<Seq<char>, serde_json::Value> {
    with_custom(
        standard_claims(req.username@, req.org@, req.roles.deep_view(), now),
        req.custom@,
    )
}

/// The claims of the token that answers a request at the time `now`, in seconds.
fn build_claims(req: GenerateJwtRequest, now: u64) -> (m: serde_json::Map<String, serde_json::Value>)
    requires
        now + TOKEN_LIFETIME <= u64::MAX,
    ensures
        json_entries(m) == claims_of(req, now),
{
    let mut claims = map_new();
    assert(json_entries(claims) =~= Map::<Seq<char>, serde_json::Value>::empty());
    let tenant = tenant_id_from_org(req.org.as_str());
    map_insert(&mut claims, "sub".to_string(), value_from_string(req.username));
    map_insert(&mut claims, "org".to_string(), value_from_string(req.org));
    map_insert(&mut claims, "tenant_id".to_string(), value_from_string(tenant));
    if req.roles.len() > 0 {
        map_insert(&mut claims, "roles".to_string(), value_from_strings(req.roles));
    }
    map_insert(&mut claims, "iat".to_string(), value_from_u64(now));
    map_insert(&mut claims, "exp".to_string(), value_from_u64(now + TOKEN_LIFETIME));
    let ghost standard = json_entries(claims);
    let ghost all = req.custom@;
    for claim in it: req.custom
        invariant
            it.seq() == all,
            json_entries(claims) == with_custom(standard, all.take(it.index() as int)),
    {
        assert(all.take(it.index() + 1).drop_last() =~= all.take(it.index() as int));
        let (name, value) = claim;
        map_insert(&mut claims, name, value);
    }
    assert(all.take(all.len() as int) =~= all);
    claims
}

/// The answer for what came of making a token.
pub fn jwt_outcome(result: Result<String, String>) -> (r: Result<JwtResponse, HttpError>)
    ensures
        match result {
            Ok(token) => r matches Ok(response) && response.token@ == token@,
            Err(e) => r matches Err(failure) && failure.status == 500 && failure.error@
                == "JWT encode failed: "@ + e@,
        },
{
    match result {
        Ok(token) => Ok(JwtResponse { token }),
        Err(e) => Err(err(500, join2("JWT encode failed: ", e.as_str()))),
    }
}

/// Answers a request for a token at the time `now`, in seconds since the epoch.
pub fn generate_jwt(req: GenerateJwtRequest, now: u64, secret: &str) -> (r: Result<
    JwtResponse,
    HttpError,
>)
    requires
        now + TOKEN_LIFETIME <= u64::MAX,
    ensures
        r matches Ok(response) && response.token@ == hs256_token(
            claims_of(req, now),
            encode_utf8(secret@),
        ) && response.token@.len() > 0,
{
    let claims = build_claims(req, now);
    let key = encode_text(secret);
    jwt_outcome(jwt_encode(&claims, key.as_slice()))
}

// ---- the secret ----

/// The secret that is used where none is configured.
pub const DEFAULT_SECRET: &'static str =
    "CHANGE_ME_IN_PRODUCTION_32_BYTES_MINIMUM_abcdefghijklmnopqrstuvwxyz";

/// How many bytes a secret should have at least.
pub const MIN_SECRET_BYTES: usize = 32;

/// What is to be said of the secret.
#[derive(Clone, Copy, PartialEq, Eq, Structural, Debug)]
pub enum SecretWarning {
    /// None is configured.
    NotSet,
    /// It is too short.
    TooShort,
}

/// A warning as it is printed.
pub fn secret_warning(w: SecretWarning) -> (s: &'static str)
    ensures
        s@ == match w {
            SecretWarning::NotSet =>
                "WARNING: JWT_SECRET not set - using insecure default (change in production!)"@,
            SecretWarning::TooShort => "WARNING: JWT_SECRET is too short for security"@,
        },
{
    match w {
        SecretWarning::NotSet =>
            "WARNING: JWT_SECRET not set - using insecure default (change in production!)",
        SecretWarning::TooShort => "WARNING: JWT_SECRET is too short for security",
    }
}

/// The secret to sign with, given the one that is configured, and what is to be
/// said of it.
pub fn jwt_secret(configured: Option<String>) -> (r: (String, Vec<SecretWarning>))
    ensures
        r.0@ == match configured {
            Some(s) => s@,
            None => DEFAULT_SECRET@,
        },
        r.1@ == match configured {
            Some(s) => if encode_utf8(s@).len() < MIN_SECRET_BYTES {
                seq![SecretWarning::TooShort]
            } else {
                Seq::empty()
            },
            None => seq![SecretWarning::NotSet],
        },
{
    let mut warnings: Vec<SecretWarning> = Vec::new();
    let secret = match configured {
        Some(s) => s,
        None => {
            warnings.push(SecretWarning::NotSet);
            proof {
                reveal_strlit("CHANGE_ME_IN_PRODUCTION_32_BYTES_MINIMUM_abcdefghijklmnopqrstuvwxyz");
                is_ascii_chars_encode_utf8(DEFAULT_SECRET@);
            }
            DEFAULT_SECRET.to_string()
        },
    };
    if encode_text(secret.as_str()).len() < MIN_SECRET_BYTES {
        warnings.push(SecretWarning::TooShort);
    }
    (secret, warnings)
}

// ---- laws ----

/// Whether every further claim has a name of its own.
pub open spec fn distinct_names(custom: Seq<(String, serde_json::Value)>) -> bool {
    forall|i: int, j: int|
        0 <= i < j < custom.len() ==> (#[trigger] custom[i]).0@ != (#[trigger] custom[j]).0@
}

/// Whether a further claim has this name.
pub open spec fn names(custom: Seq<(String, serde_json::Value)>, name: Seq<char>) -> bool {
    exists|i: int| 0 <= i < custom.len() && (#[trigger] custom[i]).0@ == name
}

/// Every further claim of a request is made as it was given, even where it has
/// the name of a standard claim; all other claims are the standard ones.
pub proof fn law_custom_claims_win(req: GenerateJwtRequest, now: u64)
    requires
        distinct_names(req.custom@),
    ensures
        forall|i: int|
            0 <= i < req.custom@.len() ==> claims_of(req, now).contains_pair(
                (#[trigger] req.custom@[i]).0@,
                req.custom@[i].1,
            ),
        forall|name: Seq<char>|
            !names(req.custom@, name) ==> {
                let standard = standard_claims(
                    req.username@,
                    req.org@,
                    req.roles.deep_view(),
                    now,
                );
                &&& (#[trigger] claims_of(req, now).contains_key(name)) == standard.contains_key(name)
                &&& claims_of(req, now)[name] == standard[name]
            },
{
    lemma_with_custom(
        standard_claims(req.username@, req.org@, req.roles.deep_view(), now),
        req.custom@,
    );
}

proof fn lemma_with_custom(
    claims: Map<Seq<char>, serde_json::Value>,
    custom: Seq<(String, serde_json::Value)>,
)
    requires
        distinct_names(custom),
    ensures
        forall|i: int|
            0 <= i < custom.len() ==> with_custom(claims, custom).contains_pair(
                (#[trigger] custom[i]).0@,
                custom[i].1,
            ),
        forall|name: Seq<char>|
            !names(custom, name) ==> (#[trigger] with_custom(claims, custom).contains_key(name))
                == claims.contains_key(name) && with_custom(claims, custom)[name] == claims[name],
    decreases custom.len(),
{
    if custom.len() > 0 {
        let rest = custom.drop_last();
        lemma_with_custom(claims, rest);
        assert forall|i: int| 0 <= i < custom.len() implies with_custom(claims, custom).contains_pair(
            (#[trigger] custom[i]).0@,
            custom[i].1,
        ) by {
            if i < rest.len() {
                assert(rest[i] == custom[i]);
            }
        }
        assert forall|name: Seq<char>| !names(custom, name) implies (
        #[trigger] with_custom(claims, custom).contains_key(name)) == claims.contains_key(name)
            && with_custom(claims, custom)[name] == claims[name] by {
            assert(custom[custom.len() - 1].0@ != name);
            assert(!names(rest, name)) by {
                if names(rest, name) {
                    let i = choose|i: int| 0 <= i < rest.len() && (#[trigger] rest[i]).0@ == name;
                    assert(custom[i].0@ == name);
                }
            }
            assert(with_custom(claims, rest).contains_key(name) == claims.contains_key(name));
        }
    }
}

/// The order in which further claims are given makes no difference to the
/// token.
pub proof fn law_custom_claims_have_no_order(
    req: GenerateJwtRequest,
    other: GenerateJwtRequest,
    now: u64,
    secret: Seq<u8>,
)
    requires
        distinct_names(req.custom@),
        distinct_names(other.custom@),
        req.username@ == other.username@,
        req.org@ == other.org@,
        req.roles.deep_view() == other.roles.deep_view(),
        forall|c: (String, serde_json::Value)|
            req.custom@.contains(c) <==> other.custom@.contains(c),
    ensures
        hs256_token(claims_of(req, now), secret) == hs256_token(claims_of(other, now), secret),
{
    law_custom_claims_win(req, now);
    law_custom_claims_win(other, now);
    let a = claims_of(req, now);
    let b = claims_of(other, now);
    assert forall|name: Seq<char>|
        #![trigger a.contains_key(name)]
        #![trigger b.contains_key(name)]
        a.contains_key(name) == b.contains_key(name) && a[name] == b[name] by {
        if names(req.custom@, name) {
            let i = choose|i: int|
                0 <= i < req.custom@.len() && (#[trigger] req.custom@[i]).0@ == name;
            lemma_same_claim(req.custom@, other.custom@, i);
        } else if names(other.custom@, name) {
            let i = choose|i: int|
                0 <= i < other.custom@.len() && (#[trigger] other.custom@[i]).0@ == name;
            lemma_same_claim(other.custom@, req.custom@, i);
        }
    }
    assert(a =~= b);
}

proof fn lemma_same_claim(
    custom: Seq<(String, serde_json::Value)>,
    other: Seq<(String, serde_json::Value)>,
    i: int,
)
    requires
        0 <= i < custom.len(),
        forall|c: (String, serde_json::Value)| custom.contains(c) <==> other.contains(c),
    ensures
        exists|j: int| 0 <= j < other.len() && #[trigger] other[j] == custom[i],
{
    assert(custom.contains(custom[i]));
    assert(other.contains(custom[i]));
}

/// A token names its user, organisation and tenant and the user's roles, and is
/// valid for a day from the moment at which it is issued, except where the
/// request gives a further claim of that name.
pub proof fn law_tokens_name_their_tenant(req: GenerateJwtRequest, now: u64)
    requires
        distinct_names(req.custom@),
        now + TOKEN_LIFETIME <= u64::MAX,
    ensures
        !names(req.custom@, "sub"@) ==> claims_of(req, now).contains_pair(
            "sub"@,
            json_string(req.username@),
        ),
        !names(req.custom@, "org"@) ==> claims_of(req, now).contains_pair(
            "org"@,
            json_string(req.org@),
        ),
        !names(req.custom@, "tenant_id"@) ==> claims_of(req, now).contains_pair(
            "tenant_id"@,
            json_string(tenant::tenant_id(req.org@)),
        ),
        !names(req.custom@, "iat"@) ==> claims_of(req, now).contains_pair("iat"@, json_number(now)),
        !names(req.custom@, "exp"@) ==> claims_of(req, now).contains_pair(
            "exp"@,
            json_number((now + 86_400) as u64),
        ),
        !names(req.custom@, "roles"@) ==> {
            &&& claims_of(req, now).contains_key("roles"@) <==> req.roles@.len() > 0
            &&& req.roles@.len() > 0 ==> claims_of(req, now)["roles"@] == json_strings(
                req.roles.deep_view(),
            )
        },
{
    law_custom_claims_win(req, now);
    reveal_strlit("sub");
    reveal_strlit("org");
    reveal_strlit("tenant_id");
    reveal_strlit("roles");
    reveal_strlit("iat");
    reveal_strlit("exp");
    assert("sub"@[0] == 's' && "org"@[0] == 'o' && "tenant_id"@[0] == 't' && "roles"@[0] == 'r'
        && "iat"@[0] == 'i' && "exp"@[0] == 'e');
    let c = claims_of(req, now);
    let standard = standard_claims(req.username@, req.org@, req.roles.deep_view(), now);
    assert(standard.contains_pair("sub"@, json_string(req.username@)));
    assert(standard.contains_pair("org"@, json_string(req.org@)));
    assert(standard.contains_pair("tenant_id"@, json_string(tenant::tenant_id(req.org@))));
    assert(req.roles.deep_view().len() == req.roles@.len());
    assert(standard.contains_key("roles"@) <==> req.roles@.len() > 0);
    assert(!names(req.custom@, "roles"@) ==> c.contains_key("roles"@) == standard.contains_key(
        "roles"@,
    ));
    assert(!names(req.custom@, "sub"@) ==> c.contains_key("sub"@));
    assert(!names(req.custom@, "org"@) ==> c.contains_key("org"@));
    assert(!names(req.custom@, "tenant_id"@) ==> c.contains_key("tenant_id"@));
    assert(!names(req.custom@, "iat"@) ==> c.contains_key("iat"@));
    assert(!names(req.custom@, "exp"@) ==> c.contains_key("exp"@));
}

/// Of several further claims of the same name the last is made. A claim that no
/// further claim names is made as in a token without further claims: whose it
/// is and where, the roles if there are any, and from when to when it is valid.
/// Nothing else is claimed.
pub proof fn law_the_last_claim_counts(req: GenerateJwtRequest, now: u64, name: Seq<char>)
    requires
        now + TOKEN_LIFETIME <= u64::MAX,
    ensures
        forall|i: int|
            #![trigger req.custom@[i]]
            0 <= i < req.custom@.len() && req.custom@[i].0@ == name && (forall|j: int|
                i < j < req.custom@.len() ==> (#[trigger] req.custom@[j]).0@ != name) ==> claims_of(
                req,
                now,
            ).contains_pair(name, req.custom@[i].1),
        (forall|i: int| 0 <= i < req.custom@.len() ==> (#[trigger] req.custom@[i]).0@ != name) ==> {
            let claims = claims_of(req, now);
            &&& name == "sub"@ ==> claims.contains_pair(name, json_string(req.username@))
            &&& name == "org"@ ==> claims.contains_pair(name, json_string(req.org@))
            &&& name == "tenant_id"@ ==> claims.contains_pair(
                name,
                json_string(tenant::tenant_id(req.org@)),
            )
            &&& name == "iat"@ ==> claims.contains_pair(name, json_number(now))
            &&& name == "exp"@ ==> claims.contains_pair(name, json_number((now + 86_400) as u64))
            &&& name == "roles"@ && req.roles@.len() > 0 ==> claims.contains_pair(
                name,
                json_strings(req.roles.deep_view()),
            )
            &&& name == "roles"@ && req.roles@.len() == 0 ==> !claims.contains_key(name)
            &&& claims.contains_key(name) ==> name == "sub"@ || name == "org"@ || name == "tenant_id"@
                || name == "iat"@ || name == "exp"@ || name == "roles"@
        },
{
    reveal_strlit("sub");
    reveal_strlit("org");
    reveal_strlit("tenant_id");
    reveal_strlit("roles");
    reveal_strlit("iat");
    reveal_strlit("exp");
    assert("sub"@[0] == 's' && "org"@[0] == 'o' && "tenant_id"@[0] == 't' && "roles"@[0] == 'r'
        && "iat"@[0] == 'i' && "exp"@[0] == 'e');
    assert(req.roles.deep_view().len() == req.roles@.len());
    let standard = standard_claims(req.username@, req.org@, req.roles.deep_view(), now);
    assert forall|i: int|
        #![trigger req.custom@[i]]
        0 <= i < req.custom@.len() && req.custom@[i].0@ == name && (forall|j: int|
            i < j < req.custom@.len() ==> (#[trigger] req.custom@[j]).0@ != name) implies claims_of(
        req,
        now,
    ).contains_pair(name, req.custom@[i].1) by {
        lemma_last_claim(standard, req.custom@, i);
    }
    if forall|i: int| 0 <= i < req.custom@.len() ==> (#[trigger] req.custom@[i]).0@ != name {
        lemma_unnamed_claim(standard, req.custom@, name);
    }
}

proof fn lemma_last_claim(
    claims: Map<Seq<char>, serde_json::Value>,
    custom: Seq<(String, serde_json::Value)>,
    i: int,
)
    requires
        0 <= i < custom.len(),
        forall|j: int| i < j < custom.len() ==> (#[trigger] custom[j]).0@ != custom[i].0@,
    ensures
        with_custom(claims, custom).contains_pair(custom[i].0@, custom[i].1),
    decreases custom.len(),
{
    let rest = custom.drop_last();
    if i < rest.len() {
        assert(forall|j: int| 0 <= j < rest.len() ==> #[trigger] rest[j] == custom[j]);
        assert(custom[custom.len() - 1].0@ != custom[i].0@);
        lemma_last_claim(claims, rest, i);
    }
}

proof fn lemma_unnamed_claim(
    claims: Map<Seq<char>, serde_json::Value>,
    custom: Seq<(String, serde_json::Value)>,
    name: Seq<char>,
)
    requires
        forall|i: int| 0 <= i < custom.len() ==> (#[trigger] custom[i]).0@ != name,
    ensures
        with_custom(claims, custom).contains_key(name) == claims.contains_key(name),
        with_custom(claims, custom)[name] == claims[name],
    decreases custom.len(),
{
    if custom.len() > 0 {
        let rest = custom.drop_last();
        assert(forall|j: int| 0 <= j < rest.len() ==> #[trigger] rest[j] == custom[j]);
        assert(custom[custom.len() - 1].0@ != name);
        lemma_unnamed_claim(claims, rest, name);
    }
}

} // verus!
