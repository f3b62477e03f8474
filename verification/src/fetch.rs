//! Outbound HTTP requests of a script: what is sent, and what the script gets
//! to see of the reply.

use vstd::prelude::*;

use crate::event_loop::FetchResponse;
use crate::json;
use crate::json::{js_array, js_integer, js_object, js_text, JsValue, JsView};
use crate::text::join2;

verus! {

/// `http::Method`, carried from its name to the HTTP client.
#[verifier::external_type_specification]
#[verifier::external_body]
pub struct ExMethod(http::Method);

/// The name of an HTTP method, as `http::Method::as_str` gives it.
pub uninterp spec fn method_name(m: http::Method) -> Seq<char>;

/// The characters of which the name of a method may consist.
pub open spec fn is_method_char(c: char) -> bool {
    ||| '0' <= c <= '9'
    ||| 'A' <= c <= 'Z'
    ||| 'a' <= c <= 'z'
    ||| c == '!'
    ||| c == '#'
    ||| c == '$'
    ||| c == '%'
    ||| c == '&'
    ||| c == '\''
    ||| c == '*'
    ||| c == '+'
    ||| c == '-'
    ||| c == '.'
    ||| c == '^'
    ||| c == '_'
    ||| c == '`'
    ||| c == '|'
    ||| c == '~'
}

/// Whether a text is the name of a method, of those that are defined or another.
pub open spec fn is_method(s: Seq<char>) -> bool {
    s.len() > 0 && forall|i: int| 0 <= i < s.len() ==> is_method_char(#[trigger] s[i])
}

/// `http::Method::from_bytes`: the method of the given name, and an error, here
/// its message, exactly where the name is empty or holds a character that no
/// method's name may hold.
#[verifier::external_body]
fn method_from_bytes(name: &str) -> (r: Result<http::Method, String>)
    ensures
        r is Ok <==> is_method(name@),
        r matches Ok(m) ==> method_name(m) == name@,
        r matches Err(e) ==> e@ == "invalid HTTP method"@,
{
    http::Method::from_bytes(name.as_bytes()).map_err(|e| e.to_string())
}

/// The reason phrase that goes with a status code, if there is one.
pub uninterp spec fn status_reason(status: u16) -> Option<Seq<char>>;

/// `http::StatusCode::canonical_reason` of the given code. A number that is not
/// a status code has no phrase.
#[verifier::external_body]
fn canonical_reason(status: u16) -> (r: Option<String>)
    ensures
        r.deep_view() == status_reason(status),
{
    match http::StatusCode::from_u16(status) {
        Ok(code) => code.canonical_reason().map(|phrase| phrase.to_string()),
        Err(_) => None,
    }
}

/// A request that is ready to be sent.
pub struct OutboundRequest {
    pub method: http::Method,
    pub url: String,
    pub headers: Vec<(String, String)>,
    pub body: Option<String>,
}

/// Prepares the request for a fetch. It fails if there is no such method.
pub fn do_fetch(
    url: String,
    method: &str,
    headers: Vec<(String, String)>,
    body: Option<String>,
) -> (r: Result<OutboundRequest, String>)
    ensures
        r is Ok <==> is_method(method@),
        r matches Ok(req) ==> method_name(req.method) == method@ && req.url == url && req.headers
            == headers && req.body == body,
        r matches Err(e) ==> e@ == "Invalid HTTP method: "@ + "invalid HTTP method"@,
{
    match method_from_bytes(method) {
        Ok(m) => Ok(OutboundRequest { method: m, url, headers, body }),
        Err(e) => Err(join2("Invalid HTTP method: ", e.as_str())),
    }
}

/// Whether a byte may stand in a header value that is shown as text.
pub open spec fn is_visible(b: u8) -> bool {
    32 <= b < 127 || b == 9
}

pub open spec fn all_visible(bytes: Seq<u8>) -> bool {
    forall|i: int| 0 <= i < bytes.len() ==> is_visible(#[trigger] bytes[i])
}

/// A header value as text: its characters, if all of them are visible ASCII or
/// tabs, and nothing otherwise.
pub open spec fn header_shown(bytes: Seq<u8>) -> Seq<char> {
    if all_visible(bytes) {
        bytes.map_values(|b: u8| b as char)
    } else {
        Seq::empty()
    }
}

/// The text of a header value.
pub fn header_text(bytes: &Vec<u8>) -> (s: String)
    ensures
        s@ == header_shown(bytes@),
        (forall|i: int| 0 <= i < bytes@.len() ==> 32 <= #[trigger] bytes@[i] <= 126 || bytes@[i] == 9)
            ==> s@.len() == bytes@.len() && forall|i: int|
            0 <= i < bytes@.len() ==> #[trigger] s@[i] == bytes@[i] as char,
        (exists|i: int|
            0 <= i < bytes@.len() && !(32 <= #[trigger] bytes@[i] <= 126 || bytes@[i] == 9))
            ==> s@.len() == 0,
{
    proof {
        law_only_visible_headers_are_shown(bytes@);
    }
    let mut s = String::new();
    for i in 0..bytes.len()
        invariant
            forall|k: int| 0 <= k < i ==> is_visible(#[trigger] bytes@[k]),
            s@ == bytes@.take(i as int).map_values(|b: u8| b as char),
    {
        let b = bytes[i];
        if !((32 <= b && b < 127) || b == 9) {
            assert(!is_visible(bytes@[i as int]));
            return String::new();
        }
        s.push(b as char);
        assert(bytes@.take(i + 1).map_values(|b: u8| b as char) =~= bytes@.take(
            i as int,
        ).map_values(|b: u8| b as char).push(b as char));
    }
    assert(bytes@.take(bytes@.len() as int) =~= bytes@);
    s
}

/// What came back for a request.
pub enum FetchReply {
    /// The request could not be sent, or no response came.
    SendFailed { error: String },
    /// A response came, but its body could not be read.
    BodyFailed { error: String },
    /// A response with its headers, whose values are raw bytes, and its body.
    Response { status: u16, headers: Vec<(String, Vec<u8>)>, body: String },
}

/// Header names and shown values, in the order of the response.
pub open spec fn headers_shown(headers: Seq<(String, Vec<u8>)>) -> Seq<(Seq<char>, Seq<char>)> {
    headers.map_values(|h: (String, Vec<u8>)| (h.0@, header_shown(h.1@)))
}

/// The phrase for a status, or nothing.
pub open spec fn reason_or_empty(status: u16) -> Seq<char> {
    match status_reason(status) {
        Some(phrase) => phrase,
        None => Seq::empty(),
    }
}

/// The outcome of a fetch.
pub fn fetch_outcome(reply: FetchReply) -> (r: Result<FetchResponse, String>)
    ensures
        match reply {
            FetchReply::SendFailed { error } => r matches Err(e) && e@ == "fetch failed: "@ + error@,
            FetchReply::BodyFailed { error } => r matches Err(e) && e@
                == "Failed to read response body: "@ + error@,
            FetchReply::Response { status, headers, body } => {
                &&& r matches Ok(resp)
                &&& resp.status == status
                &&& resp.status_text@ == reason_or_empty(status)
                &&& resp.status_text@ == match status_reason(status) {
                    Some(phrase) => phrase,
                    None => Seq::empty(),
                }
                &&& resp.headers.deep_view() == headers_shown(headers@)
                &&& resp.headers@.len() == headers@.len()
                &&& forall|i: int|
                    0 <= i < headers@.len() ==> {
                        &&& (#[trigger] resp.headers@[i]).0@ == headers@[i].0@
                        &&& resp.headers@[i].1@ == header_shown(headers@[i].1@)
                    }
                &&& resp.body == body
            },
        },
{
    match reply {
        FetchReply::SendFailed { error } => Err(join2("fetch failed: ", error.as_str())),
        FetchReply::BodyFailed { error } => Err(
            join2("Failed to read response body: ", error.as_str()),
        ),
        FetchReply::Response { status, headers, body } => {
            let status_text = match canonical_reason(status) {
                Some(phrase) => phrase,
                None => String::new(),
            };
            let mut shown: Vec<(String, String)> = Vec::new();
            for i in 0..headers.len()
                invariant
                    shown.deep_view() == headers_shown(headers@.take(i as int)),
            {
                let (name, value) = &headers[i];
                let ghost before = shown.deep_view();
                let pair = (name.clone(), header_text(value));
                shown.push(pair);
                assert(shown.deep_view() =~= before.push(pair.deep_view()));
                assert(headers_shown(headers@.take(i + 1)) =~= headers_shown(
                    headers@.take(i as int),
                ).push((name@, header_shown(value@))));
            }
            assert(headers@.take(headers@.len() as int) =~= headers@);
            assert(shown.deep_view().len() == shown@.len());
            assert forall|i: int| 0 <= i < headers@.len() implies (#[trigger] shown@[i]).0@
                == headers@[i].0@ && shown@[i].1@ == header_shown(headers@[i].1@) by {
                assert(shown.deep_view()[i] == headers_shown(headers@)[i]);
            }
            Ok(FetchResponse { status, status_text, headers: shown, body })
        },
    }
}

/// The pairs of a list of headers as script values.
pub open spec fn header_pairs_view(headers: Seq<(Seq<char>, Seq<char>)>) -> Seq<JsView> {
    headers.map_values(
        |h: (Seq<char>, Seq<char>)|
            JsView::Array(seq![JsView::Text(h.0), JsView::Text(h.1)]),
    )
}

/// The object that a script gets for a response: `status`, `statusText`,
/// `headers` as a list of pairs, and `body`.
pub open spec fn response_view(resp: FetchResponse) -> JsView {
    JsView::Object(
        seq![
            ("status"@, JsView::Integer(resp.status as i64)),
            ("statusText"@, JsView::Text(resp.status_text@)),
            ("headers"@, JsView::Array(header_pairs_view(resp.headers.deep_view()))),
            ("body"@, JsView::Text(resp.body@)),
        ],
    )
}

/// Builds the object with which a fetch promise is resolved.
pub fn build_fetch_response_object(resp: &FetchResponse) -> (v: JsValue)
    ensures
        v@ == response_view(*resp),
{
    let mut pairs: Vec<JsValue> = Vec::new();
    for i in 0..resp.headers.len()
        invariant
            pairs@.len() == i,
            forall|k: int|
                0 <= k < i ==> (#[trigger] pairs@[k])@ == header_pairs_view(
                    resp.headers.deep_view(),
                )[k],
    {
        let (name, value) = &resp.headers[i];
        let mut pair: Vec<JsValue> = Vec::new();
        pair.push(js_text(name));
        pair.push(js_text(value));
        assert(json::js_items(pair@) =~= seq![JsView::Text(name@), JsView::Text(value@)]);
        let p = js_array(pair);
        assert(p@ == header_pairs_view(resp.headers.deep_view())[i as int]);
        pairs.push(p);
    }
    assert(json::js_items(pairs@) =~= header_pairs_view(resp.headers.deep_view()));
    let headers = js_array(pairs);
    let mut fields: Vec<(String, JsValue)> = Vec::new();
    fields.push(("status".to_string(), js_integer(resp.status as i64)));
    fields.push(("statusText".to_string(), js_text(&resp.status_text)));
    fields.push(("headers".to_string(), headers));
    fields.push(("body".to_string(), js_text(&resp.body)));
    assert(json::js_fields(fields@) =~= response_view(*resp)->Object_0);
    js_object(fields)
}

// ---- laws ----

/// A request can be sent with any method whose name is made of ASCII letters,
/// digits and the signs that names may hold, and with no other.
pub proof fn law_every_name_is_a_method(name: Seq<char>)
    ensures
        is_method(name) <==> name.len() > 0 && forall|i: int|
            0 <= i < name.len() ==> {
                let c = #[trigger] name[i];
                ||| 'a' <= c <= 'z'
                ||| 'A' <= c <= 'Z'
                ||| '0' <= c <= '9'
                ||| "!#$%&'*+-.^_`|~"@.contains(c)
            },
{
    reveal_strlit("!#$%&'*+-.^_`|~");
    let signs = "!#$%&'*+-.^_`|~"@;
    assert forall|c: char| #[trigger] is_method_char(c) <==> 'a' <= c <= 'z' || 'A' <= c <= 'Z' || '0'
        <= c <= '9' || signs.contains(c) by {
        if signs.contains(c) {
            let i = choose|i: int| 0 <= i < signs.len() && signs[i] == c;
            assert(signs.len() == 15);
        } else {
            assert(forall|i: int| 0 <= i < signs.len() ==> #[trigger] signs[i] != c);
            assert(signs[0] == '!' && signs[1] == '#' && signs[2] == '$' && signs[3] == '%' && signs[4]
                == '&' && signs[5] == '\'' && signs[6] == '*' && signs[7] == '+' && signs[8] == '-'
                && signs[9] == '.' && signs[10] == '^' && signs[11] == '_' && signs[12] == '`'
                && signs[13] == '|' && signs[14] == '~');
        }
    }
    if is_method(name) {
        assert forall|i: int| 0 <= i < name.len() implies {
            let c = #[trigger] name[i];
            ||| 'a' <= c <= 'z'
            ||| 'A' <= c <= 'Z'
            ||| '0' <= c <= '9'
            ||| signs.contains(c)
        } by {
            assert(is_method_char(name[i]));
        }
    }
}

/// A header value is shown character by character where all of it is visible
/// ASCII, spaces and tabs, and not at all otherwise.
pub proof fn law_only_visible_headers_are_shown(bytes: Seq<u8>)
    ensures
        (forall|i: int| 0 <= i < bytes.len() ==> 32 <= #[trigger] bytes[i] <= 126 || bytes[i] == 9) ==> {
            &&& header_shown(bytes).len() == bytes.len()
            &&& forall|i: int|
                0 <= i < bytes.len() ==> #[trigger] header_shown(bytes)[i] == bytes[i] as char
        },
        (exists|i: int| 0 <= i < bytes.len() && !(32 <= #[trigger] bytes[i] <= 126 || bytes[i] == 9))
            ==> header_shown(bytes).len() == 0,
{
    if forall|i: int| 0 <= i < bytes.len() ==> 32 <= #[trigger] bytes[i] <= 126 || bytes[i] == 9 {
        assert(all_visible(bytes));
    } else {
        let i = choose|i: int|
            0 <= i < bytes.len() && !(32 <= #[trigger] bytes[i] <= 126 || bytes[i] == 9);
        assert(!is_visible(bytes[i]));
    }
}

/// A script finds a response as it came: its status, whatever that is, the phrase,
/// every header in order as a pair of name and value, and the body.
pub proof fn law_a_script_sees_the_whole_response(resp: FetchResponse)
    ensures
        response_view(resp) is Object,
        ({
            let fields = response_view(resp)->Object_0;
            &&& fields.len() == 4
            &&& json::property(fields, "status"@) == Some(JsView::Integer(resp.status as i64))
            &&& json::property(fields, "statusText"@) == Some(JsView::Text(resp.status_text@))
            &&& json::property(fields, "body"@) == Some(JsView::Text(resp.body@))
            &&& json::property(fields, "headers"@) matches Some(JsView::Array(pairs))
            &&& pairs.len() == resp.headers@.len()
            &&& forall|i: int|
                0 <= i < pairs.len() ==> #[trigger] pairs[i] == JsView::Array(
                    seq![JsView::Text(resp.headers@[i].0@), JsView::Text(resp.headers@[i].1@)],
                )
        }),
{
    reveal_strlit("status");
    reveal_strlit("statusText");
    reveal_strlit("headers");
    reveal_strlit("body");
    assert("status"@[0] == 's' && "statusText"@[0] == 's' && "headers"@[0] == 'h' && "body"@[0]
        == 'b');
    assert("status"@.len() == 6 && "statusText"@.len() == 10);
    let fields = response_view(resp)->Object_0;
    let pairs = header_pairs_view(resp.headers.deep_view());
    assert forall|i: int| 0 <= i < pairs.len() implies #[trigger] pairs[i] == JsView::Array(
        seq![JsView::Text(resp.headers@[i].0@), JsView::Text(resp.headers@[i].1@)],
    ) by {
        assert(resp.headers.deep_view()[i] == (resp.headers@[i].0@, resp.headers@[i].1@));
    }
    assert(fields[3] == ("body"@, JsView::Text(resp.body@)));
    assert(fields[2] == ("headers"@, JsView::Array(pairs)));
    assert(fields[1] == ("statusText"@, JsView::Text(resp.status_text@)));
    assert(fields[0] == ("status"@, JsView::Integer(resp.status as i64)));
    lemma_property_last(fields);
    lemma_property_last(fields.drop_last());
    lemma_property_last(fields.drop_last().drop_last());
    lemma_property_last(fields.drop_last().drop_last().drop_last());
}

proof fn lemma_property_last(fields: Seq<(Seq<char>, JsView)>)
    requires
        fields.len() > 0,
    ensures
        json::property(fields, fields.last().0) == Some(fields.last().1),
        forall|name: Seq<char>|
            name != fields.last().0 ==> #[trigger] json::property(fields, name) == json::property(
                fields.drop_last(),
                name,
            ),
{
}

} // verus!
