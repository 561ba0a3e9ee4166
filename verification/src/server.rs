//! The token-guarded local gateway: who may talk to it, what it forwards, and
//! what it answers.
//!
//! Three layers of defense: the loopback bind rejects non-local clients, the
//! bearer token rejects other local processes, and Host validation rejects
//! requests whose Host header isn't the bound address. The token is accepted
//! via query parameter on `/sse` only (EventSource cannot set headers).

use vstd::prelude::*;

use crate::db::ServerId;
use crate::error::{AppError, AppResult, ErrorView};
use crate::json;
use crate::json::{member, Json, JsonView};
use crate::protocol;
use crate::protocol::{error_envelope, result_envelope, DEFAULT_REQUEST_TIMEOUT};
use crate::state::RunningServer;
use crate::text;
use crate::text::{chars_of, concat, i64_text, same_text};

verus! {

broadcast use vstd::string::group_string_axioms;

/// Cap on the caller-selectable timeout of a forwarded request, in seconds.
pub const MAX_FORWARD_TIMEOUT: u64 = 300;

/// Backstop on forwarded requests, in seconds: strictly above
/// [`MAX_FORWARD_TIMEOUT`] so it never races the per-request timeout; it only
/// catches a handler that wedged outright.
pub const GATEWAY_BACKSTOP_TIMEOUT: u64 = 310;

/// How many random bytes make a token.
pub const TOKEN_BYTES: usize = 32;

/// The lower-case hexadecimal digit `d` (`d < 16`).
pub open spec fn hex_digit(d: u8) -> char {
    if d < 10 {
        (48 + d) as u32 as char
    } else {
        (87 + d) as u32 as char
    }
}

/// Two digits for each byte.
pub open spec fn hex_text(b: Seq<u8>) -> Seq<char>
    decreases b.len(),
{
    if b.len() == 0 {
        Seq::empty()
    } else {
        hex_text(b.drop_last()).push(hex_digit(b.last() / 16)).push(hex_digit(b.last() % 16))
    }
}

/// `ring::rand::SystemRandom::fill`: `n` random bytes, or nothing where the
/// system's generator fails. Nothing is claimed of the bytes.
#[verifier::external_body]
fn random_bytes(n: usize) -> (r: Option<Vec<u8>>)
    ensures
        r matches Some(b) ==> b@.len() == n,
{
    let mut bytes = vec![0u8; n];
    ring::rand::SecureRandom::fill(&ring::rand::SystemRandom::new(), &mut bytes).ok()?;
    Some(bytes)
}

/// `std::hint::black_box` hands back what it is given.
pub assume_specification<T>[ std::hint::black_box::<T> ](dummy: T) -> (r: T)
    ensures
        r == dummy,
;

fn hex_char(d: u8) -> (r: char)
    requires
        d < 16,
    ensures
        r == hex_digit(d),
{
    if d < 10 {
        (48 + d) as char
    } else {
        (87 + d) as char
    }
}

/// Bearer token generated in memory at startup; never persisted or logged.
pub struct AuthToken {
    text: String,
}

impl AuthToken {
    /// The token's text.
    pub closed spec fn secret(self) -> Seq<char> {
        self.text@
    }

    /// The token made of random bytes.
    pub fn from_bytes(bytes: &Vec<u8>) -> (r: AuthToken)
        ensures
            r.secret() == hex_text(bytes@),
    {
        let mut text = String::new();
        let mut i: usize = 0;
        assert(bytes@.take(0) =~= Seq::empty());
        assert(text@ =~= Seq::empty());
        while i < bytes.len()
            invariant
                i <= bytes@.len(),
                text@ == hex_text(bytes@.take(i as int)),
            decreases bytes@.len() - i,
        {
            assert(bytes@.take(i + 1).drop_last() =~= bytes@.take(i as int));
            let b: u8 = bytes[i];
            text.push(hex_char(b / 16));
            text.push(hex_char(b % 16));
            i = i + 1;
        }
        assert(bytes@.take(bytes@.len() as int) =~= bytes@);
        AuthToken { text }
    }

    /// The token made of what the system's random number generator gave: none
    /// where it failed.
    pub fn from_random(bytes: Option<Vec<u8>>) -> (r: Option<AuthToken>)
        ensures
            r is Some == bytes is Some,
            r matches Some(token) ==> token.secret() == hex_text(bytes->0@),
    {
        match bytes {
            Some(bytes) => Some(Self::from_bytes(&bytes)),
            None => None,
        }
    }

    /// A fresh token, or nothing where the system's random number generator
    /// fails: [`AuthToken::from_random`] of [`TOKEN_BYTES`] random bytes.
    pub fn generate() -> (r: Option<AuthToken>)
        ensures
            r matches Some(token) ==> exists|b: Seq<u8>|
                b.len() == TOKEN_BYTES && token.secret() == #[trigger] hex_text(b),
    {
        Self::from_random(random_bytes(TOKEN_BYTES))
    }

    /// Constant-time comparison so the token can't be recovered byte by byte
    /// through timing: the differences are accumulated, and nothing returns
    /// early.
    pub fn matches(&self, candidate: &str) -> (r: bool)
        ensures
            r == (candidate@ == self.secret()),
    {
        let expected = self.text.as_str().as_bytes();
        let given = candidate.as_bytes();
        if expected.len() != given.len() {
            return false;
        }
        let mut acc: u8 = 0;
        let mut i: usize = 0;
        assert(expected@.take(0) =~= given@.take(0));
        while i < expected.len()
            invariant
                i <= expected@.len(),
                expected@.len() == given@.len(),
                (acc == 0) == (expected@.take(i as int) == given@.take(i as int)),
            decreases expected@.len() - i,
        {
            let x: u8 = expected[i];
            let y: u8 = given[i];
            let before: u8 = acc;
            let diff: u8 = std::hint::black_box(x ^ y);
            acc = acc | diff;
            proof {
                assert((x ^ y) == 0 <==> x == y) by (bit_vector);
                assert((before | diff) == 0 <==> before == 0 && diff == 0) by (bit_vector);
                let e = expected@;
                let g = given@;
                assert(e.take(i + 1) =~= e.take(i as int).push(x));
                assert(g.take(i + 1) =~= g.take(i as int).push(y));
                if e.take(i + 1) == g.take(i + 1) {
                    assert(e.take(i + 1).drop_last() =~= e.take(i as int));
                    assert(g.take(i + 1).drop_last() =~= g.take(i as int));
                    assert(e.take(i + 1).last() == x && g.take(i + 1).last() == y);
                }
            }
            i = i + 1;
        }
        proof {
            assert(expected@.take(expected@.len() as int) =~= expected@);
            assert(given@.take(given@.len() as int) =~= given@);
            if expected@ == given@ {
                text::lemma_encode_utf8_injective(self.text@, candidate@);
            }
        }
        acc == 0
    }

    /// For handing to the UI; do not log.
    pub fn expose(&self) -> (r: &str)
        ensures
            r@ == self.secret(),
    {
        self.text.as_str()
    }
}

/// A token has two characters for each of its bytes.
pub proof fn law_hex_doubles_the_length(b: Seq<u8>)
    ensures
        hex_text(b).len() == 2 * b.len(),
    decreases b.len(),
{
    if b.len() > 0 {
        law_hex_doubles_the_length(b.drop_last());
    }
}

/// Different bytes make different tokens.
pub proof fn law_tokens_tell_bytes_apart(a: Seq<u8>, b: Seq<u8>)
    requires
        hex_text(a) == hex_text(b),
    ensures
        a == b,
    decreases a.len(),
{
    law_hex_doubles_the_length(a);
    law_hex_doubles_the_length(b);
    if a.len() > 0 {
        let x = a.last();
        let y = b.last();
        let s = hex_text(a);
        let p = hex_text(a.drop_last());
        let q = hex_text(b.drop_last());
        assert(s.last() == hex_digit(x % 16) && s.last() == hex_digit(y % 16));
        assert(s.drop_last() =~= p.push(hex_digit(x / 16)));
        assert(s.drop_last() =~= q.push(hex_digit(y / 16)));
        assert(s.drop_last().last() == hex_digit(x / 16) && s.drop_last().last() == hex_digit(
            y / 16,
        ));
        assert(p =~= s.drop_last().drop_last() && q =~= s.drop_last().drop_last());
        lemma_hex_digit_injective(x / 16, y / 16);
        lemma_hex_digit_injective(x % 16, y % 16);
        assert(x == y);
        law_tokens_tell_bytes_apart(a.drop_last(), b.drop_last());
        assert(a =~= a.drop_last().push(x));
        assert(b =~= b.drop_last().push(y));
    } else {
        assert(a =~= b);
    }
}

proof fn lemma_hex_digit_injective(a: u8, b: u8)
    requires
        a < 16,
        b < 16,
        hex_digit(a) == hex_digit(b),
    ensures
        a == b,
{
    assert(hex_digit(a) as u32 == if a < 10 { 48 + a } else { 87 + a });
    assert(hex_digit(b) as u32 == if b < 10 { 48 + b } else { 87 + b });
}

/// What the gateway holds its callers to.
pub struct Gateway {
    pub token: AuthToken,
    /// The bound address as clients must name it in their Host header.
    pub host: String,
}

/// The text behind the last colon, or all of it.
pub open spec fn after_last_colon(s: Seq<char>) -> Seq<char>
    decreases s.len(),
{
    if s.len() == 0 || s.last() == ':' {
        Seq::empty()
    } else {
        after_last_colon(s.drop_last()).push(s.last())
    }
}

/// The only Hosts a legitimate client can arrive with: the bound address, or
/// its `localhost` spelling.
pub open spec fn spec_host_allowed(host: Option<Seq<char>>, bound: Seq<char>) -> bool {
    match host {
        Some(h) => h == bound || h == "localhost:"@ + after_last_colon(bound),
        None => false,
    }
}

/// The view of an optional text.
pub open spec fn str_option(s: Option<&str>) -> Option<Seq<char>> {
    match s {
        Some(t) => Some(t@),
        None => None,
    }
}

fn port_of(bound: &str) -> (r: &str)
    ensures
        r@ == after_last_colon(bound@),
{
    let chars = chars_of(bound);
    let mut from: usize = chars.len();
    assert(bound@.take(bound@.len() as int) =~= bound@);
    assert(bound@.skip(bound@.len() as int) =~= Seq::empty());
    assert(after_last_colon(bound@) + Seq::<char>::empty() =~= after_last_colon(bound@));
    while from > 0 && chars[from - 1] != ':'
        invariant
            chars@ == bound@,
            from <= chars@.len(),
            after_last_colon(bound@) == after_last_colon(bound@.take(from as int)) + bound@.skip(
                from as int,
            ),
        decreases from,
    {
        let ghost here = bound@.take(from as int);
        assert(here.last() == bound@[from - 1]);
        assert(here.drop_last() =~= bound@.take(from - 1));
        assert(after_last_colon(bound@.take(from - 1)).push(here.last()) + bound@.skip(from as int)
            =~= after_last_colon(bound@.take(from - 1)) + bound@.skip(from - 1));
        from = from - 1;
    }
    proof {
        if from > 0 {
            assert(bound@.take(from as int).last() == ':');
        }
        assert(after_last_colon(bound@.take(from as int)).len() == 0);
        assert(after_last_colon(bound@.take(from as int)) + bound@.skip(from as int)
            =~= bound@.skip(from as int));
        assert(bound@.subrange(from as int, bound@.len() as int) =~= bound@.skip(from as int));
    }
    bound.substring_char(from, chars.len())
}

/// Whether a request names the gateway in its Host header.
pub fn host_allowed(host: Option<&str>, gateway: &Gateway) -> (r: bool)
    ensures
        r == spec_host_allowed(str_option(host), gateway.host@),
{
    match host {
        Some(host) => {
            if same_text(host, gateway.host.as_str()) {
                return true;
            }
            let local = concat("localhost:", port_of(gateway.host.as_str()));
            same_text(host, local.as_str())
        },
        None => false,
    }
}

/// What follows `Bearer ` in an Authorization header.
pub open spec fn bearer(header: Option<Seq<char>>) -> Option<Seq<char>> {
    match header {
        Some(h) => if "Bearer "@.is_prefix_of(h) {
            Some(h.skip("Bearer "@.len() as int))
        } else {
            None
        },
        None => None,
    }
}

/// The token that a request presents: the one in its header, or else the one in
/// its query.
pub open spec fn presented(header: Option<Seq<char>>, query: Option<Seq<char>>) -> Option<
    Seq<char>,
> {
    match bearer(header) {
        Some(t) => Some(t),
        None => query,
    }
}

/// A request is let in: it names the gateway, and presents its token.
pub open spec fn authorized(
    host: Option<Seq<char>>,
    header: Option<Seq<char>>,
    query: Option<Seq<char>>,
    bound: Seq<char>,
    secret: Seq<char>,
) -> bool {
    spec_host_allowed(host, bound) && presented(header, query) == Some(secret)
}

fn strip_bearer<'a>(header: &'a str) -> (r: Option<&'a str>)
    ensures
        str_option(r) == bearer(Some(header@)),
{
    let chars = chars_of(header);
    let prefix = chars_of("Bearer ");
    let n: usize = prefix.len();
    if chars.len() < n {
        return None;
    }
    let mut i: usize = 0;
    while i < n
        invariant
            i <= n,
            n == prefix@.len(),
            n <= chars@.len(),
            prefix@ == "Bearer "@,
            chars@ == header@,
            forall|j: int| 0 <= j < i ==> prefix@[j] == #[trigger] chars@[j],
        decreases n - i,
    {
        if prefix[i] != chars[i] {
            assert(!"Bearer "@.is_prefix_of(header@)) by {
                if "Bearer "@.is_prefix_of(header@) {
                    assert("Bearer "@ == header@.subrange(0, n as int));
                    assert(header@.subrange(0, n as int)[i as int] == header@[i as int]);
                }
            }
            return None;
        }
        i = i + 1;
    }
    assert("Bearer "@ =~= header@.subrange(0, n as int));
    assert(header@.subrange(n as int, header@.len() as int) =~= header@.skip(n as int));
    Some(header.substring_char(n, chars.len()))
}

/// Host validation first, then the token: `Authorization: Bearer <token>` or,
/// where the route opts in, a `token` query parameter.
pub fn authorize(
    host: Option<&str>,
    authorization: Option<&str>,
    query_token: Option<&str>,
    gateway: &Gateway,
) -> (r: AppResult<()>)
    ensures
        r is Ok == authorized(
            str_option(host),
            str_option(authorization),
            str_option(query_token),
            gateway.host@,
            gateway.token.secret(),
        ),
        r matches Err(e) ==> e@ == ErrorView::Unauthorized,
{
    if !host_allowed(host, gateway) {
        return Err(AppError::Unauthorized);
    }
    let header = match authorization {
        Some(h) => strip_bearer(h),
        None => None,
    };
    let candidate = match header {
        Some(t) => Some(t),
        None => query_token,
    };
    match candidate {
        Some(c) => {
            if gateway.token.matches(c) {
                Ok(())
            } else {
                Err(AppError::Unauthorized)
            }
        },
        None => Err(AppError::Unauthorized),
    }
}

/// The origins of the webview, and only those: the production webviews, and in
/// debug builds the development server.
pub fn cors_layer(debug: bool) -> (r: Vec<&'static str>)
    ensures
        r@.map_values(|s: &'static str| s@) == (if debug {
            seq!["tauri://localhost"@, "http://tauri.localhost"@, "http://localhost:1420"@]
        } else {
            seq!["tauri://localhost"@, "http://tauri.localhost"@]
        }),
{
    let mut origins: Vec<&'static str> = Vec::new();
    origins.push("tauri://localhost");
    origins.push("http://tauri.localhost");
    if debug {
        origins.push("http://localhost:1420");
        assert(origins@.map_values(|s: &'static str| s@) =~= seq![
            "tauri://localhost"@,
            "http://tauri.localhost"@,
            "http://localhost:1420"@,
        ]);
    } else {
        assert(origins@.map_values(|s: &'static str| s@) =~= seq![
            "tauri://localhost"@,
            "http://tauri.localhost"@,
        ]);
    }
    origins
}

/// The bound of a forwarded request, in seconds.
pub open spec fn spec_forward_timeout(timeout_s: Option<u64>) -> u64 {
    match timeout_s {
        Some(s) => if s < 1 {
            1
        } else if s > MAX_FORWARD_TIMEOUT {
            MAX_FORWARD_TIMEOUT
        } else {
            s
        },
        None => DEFAULT_REQUEST_TIMEOUT,
    }
}

/// Clamp the caller's timeout to `1..=MAX_FORWARD_TIMEOUT`; absent means the
/// protocol default. Always strictly below the backstop, so the two can never
/// race.
pub fn forward_timeout(timeout_s: Option<u64>) -> (r: u64)
    ensures
        r == spec_forward_timeout(timeout_s),
        1 <= r <= MAX_FORWARD_TIMEOUT < GATEWAY_BACKSTOP_TIMEOUT,
{
    match timeout_s {
        Some(s) => {
            if s < 1 {
                1
            } else if s > MAX_FORWARD_TIMEOUT {
                MAX_FORWARD_TIMEOUT
            } else {
                s
            }
        },
        None => DEFAULT_REQUEST_TIMEOUT,
    }
}

/// The JSON-RPC workbench payload. The gateway re-correlates: the child sees
/// the panel's own monotonic ids, and the caller's `id` is echoed back.
pub struct ForwardRequest {
    pub method: String,
    pub params: Json,
    pub id: Option<Json>,
}

/// What to do with a forwarded request.
pub enum Forward {
    /// No id: fire and forget.
    Notify { method: String, params: Json },
    /// Await the answer, for at most `timeout` seconds.
    Request { method: String, params: Json, caller: Json, timeout: u64 },
}

/// Decide on a `POST /mcp/{server_id}`. Auth strictly precedes everything: an
/// unauthenticated caller gets nothing else, not even a parse error that hints
/// at the schema. The token is taken from the header only. `body` is the parsed
/// payload, or the parser's message; `runtime` is the server's, if it is
/// running.
pub fn mcp_forward(
    gateway: &Gateway,
    host: Option<&str>,
    authorization: Option<&str>,
    server_id: ServerId,
    timeout_s: Option<u64>,
    body: Result<ForwardRequest, String>,
    runtime: &Option<RunningServer>,
) -> (r: AppResult<Forward>)
    ensures
        !authorized(
            str_option(host),
            str_option(authorization),
            None,
            gateway.host@,
            gateway.token.secret(),
        ) ==> r is Err && r->Err_0@ == ErrorView::Unauthorized,
        authorized(
            str_option(host),
            str_option(authorization),
            None,
            gateway.host@,
            gateway.token.secret(),
        ) ==> match body {
            Err(e) => r is Err && r->Err_0@ == ErrorView::InvalidInput(
                "invalid JSON-RPC body: "@ + e@,
            ),
            Ok(request) => if runtime is None {
                r is Err && r->Err_0@ == ErrorView::ServerNotFound(
                    text::decimal(server_id as int),
                )
            } else {
                r == Ok::<Forward, AppError>(
                    match request.id {
                        None => Forward::Notify { method: request.method, params: request.params },
                        Some(caller) => Forward::Request {
                            method: request.method,
                            params: request.params,
                            caller,
                            timeout: spec_forward_timeout(timeout_s),
                        },
                    },
                )
            },
        },
{
    match authorize(host, authorization, None, gateway) {
        Ok(_) => {},
        Err(e) => {
            return Err(e);
        },
    }
    let request = match body {
        Ok(request) => request,
        Err(e) => {
            return Err(AppError::InvalidInput(concat("invalid JSON-RPC body: ", e.as_str())));
        },
    };
    if runtime.is_none() {
        return Err(AppError::ServerNotFound(i64_text(server_id)));
    }
    Ok(
        match request.id {
            None => Forward::Notify { method: request.method, params: request.params },
            Some(caller) => Forward::Request {
                method: request.method,
                params: request.params,
                caller,
                timeout: forward_timeout(timeout_s),
            },
        },
    )
}

/// The answer to an accepted notification: `{"accepted": true}`.
pub fn accepted() -> (r: Json)
    ensures
        r@ == JsonView::Object(seq![("accepted"@, JsonView::Bool(true))]),
        r@.wf(),
{
    broadcast use json::group_json_views;

    let mut members: Vec<(String, Json)> = Vec::new();
    members.push(member("accepted", Json::Bool(true)));
    assert(json::entries_view(members@) =~= seq![("accepted"@, JsonView::Bool(true))]);
    proof {
        json::lemma_object_wf(seq![("accepted"@, JsonView::Bool(true))]);
    }
    Json::Object(members)
}

/// The answer to a forwarded request. RPC-level errors come back as JSON-RPC
/// error envelopes (the workbench wants to inspect them); transport-level
/// failures stay failures. The caller's id is echoed.
pub fn forward_reply(caller: Json, outcome: AppResult<Json>) -> (r: AppResult<Json>)
    ensures
        match outcome {
            Ok(result) => r is Ok && r->Ok_0@ == protocol::result_json(caller@, result@),
            Err(AppError::Rpc { code, message }) => r is Ok && r->Ok_0@ == protocol::error_json(
                caller@,
                code,
                message@,
            ),
            Err(other) => r == Err::<Json, AppError>(other),
        },
{
    match outcome {
        Ok(result) => Ok(result_envelope(caller, result)),
        Err(AppError::Rpc { code, message }) => Ok(error_envelope(caller, code, message.as_str())),
        Err(other) => Err(other),
    }
}

/// Without the token nobody is let in, whatever else the request holds.
pub proof fn law_no_token_no_entry(
    host: Option<Seq<char>>,
    header: Option<Seq<char>>,
    query: Option<Seq<char>>,
    bound: Seq<char>,
    secret: Seq<char>,
)
    requires
        header != Some("Bearer "@ + secret),
        query != Some(secret),
    ensures
        !authorized(host, header, query, bound, secret),
{
    if bearer(header) == Some(secret) {
        let h = header->0;
        assert(h =~= h.subrange(0, "Bearer "@.len() as int) + h.skip("Bearer "@.len() as int));
    }
}

/// A request that names another host is turned away, even with the token.
pub proof fn law_foreign_hosts_are_turned_away(
    host: Seq<char>,
    header: Option<Seq<char>>,
    query: Option<Seq<char>>,
    bound: Seq<char>,
    secret: Seq<char>,
)
    requires
        host != bound,
        host != "localhost:"@ + after_last_colon(bound),
    ensures
        !authorized(Some(host), header, query, bound, secret),
{
}

/// The token in the header lets a request in under the bound address, and so
/// does the one in the query where the header has none.
pub proof fn law_the_token_opens_the_gateway(bound: Seq<char>, secret: Seq<char>)
    ensures
        authorized(Some(bound), Some("Bearer "@ + secret), None, bound, secret),
        authorized(Some(bound), None, Some(secret), bound, secret),
        authorized(
            Some("localhost:"@ + after_last_colon(bound)),
            None,
            Some(secret),
            bound,
            secret,
        ),
{
    let h = "Bearer "@ + secret;
    assert(h.subrange(0, "Bearer "@.len() as int) =~= "Bearer "@);
    assert(h.skip("Bearer "@.len() as int) =~= secret);
}

/// A token spells its bytes in order, each as two digits, the higher half first.
pub proof fn law_tokens_spell_their_bytes(b: Seq<u8>, i: int)
    requires
        0 <= i < b.len(),
    ensures
        hex_text(b).len() == 2 * b.len(),
        hex_text(b)[2 * i] == "0123456789abcdef"@[b[i] as int / 16],
        hex_text(b)[2 * i + 1] == "0123456789abcdef"@[b[i] as int % 16],
    decreases b.len(),
{
    law_hex_doubles_the_length(b);
    law_hex_doubles_the_length(b.drop_last());
    if i < b.len() - 1 {
        assert(b.drop_last()[i] == b[i]);
        law_tokens_spell_their_bytes(b.drop_last(), i);
    } else {
        assert(b.last() == b[i]);
        lemma_hex_digit(b[i] / 16);
        lemma_hex_digit(b[i] % 16);
    }
}

proof fn lemma_hex_digit(d: u8)
    requires
        d < 16,
    ensures
        hex_digit(d) == "0123456789abcdef"@[d as int],
{
    reveal_strlit("0123456789abcdef");
    let s = "0123456789abcdef"@;
    assert(s[0] == '0' && s[1] == '1' && s[2] == '2' && s[3] == '3' && s[4] == '4' && s[5] == '5');
    assert(s[6] == '6' && s[7] == '7' && s[8] == '8' && s[9] == '9' && s[10] == 'a');
    assert(s[11] == 'b' && s[12] == 'c' && s[13] == 'd' && s[14] == 'e' && s[15] == 'f');
    assert(48u32 as char == '0' && 49u32 as char == '1' && 50u32 as char == '2');
    assert(51u32 as char == '3' && 52u32 as char == '4' && 53u32 as char == '5');
    assert(54u32 as char == '6' && 55u32 as char == '7' && 56u32 as char == '8');
    assert(57u32 as char == '9' && 97u32 as char == 'a' && 98u32 as char == 'b');
    assert(99u32 as char == 'c' && 100u32 as char == 'd' && 101u32 as char == 'e');
    assert(102u32 as char == 'f');
}

/// A request is let in exactly where it names the bound address, or `localhost`
/// with the bound port, and presents the whole token: behind `Bearer ` in its
/// header, or, where its header has no `Bearer `, in its query.
pub proof fn law_who_is_let_in(
    host: Option<Seq<char>>,
    header: Option<Seq<char>>,
    query: Option<Seq<char>>,
    address: Seq<char>,
    port: Seq<char>,
    secret: Seq<char>,
)
    requires
        !port.contains(':'),
    ensures
        ({
            let bound = address + seq![':'] + port;
            let bears = header matches Some(h) && "Bearer "@.is_prefix_of(h);
            authorized(host, header, query, bound, secret) <==> (host == Some(bound) || host
                == Some("localhost:"@ + port)) && (header == Some("Bearer "@ + secret) || (!bears
                && query == Some(secret)))
        }),
{
    let bound = address + seq![':'] + port;
    lemma_port(address, port);
    let word = "Bearer "@;
    let n = word.len() as int;
    if header == Some(word + secret) {
        let h = word + secret;
        assert(h.subrange(0, n) =~= word);
        assert(h.skip(n) =~= secret);
    }
    if bearer(header) == Some(secret) {
        let h = header->0;
        assert(h =~= h.subrange(0, n) + h.skip(n));
    }
}

proof fn lemma_port(address: Seq<char>, port: Seq<char>)
    requires
        !port.contains(':'),
    ensures
        after_last_colon(address + seq![':'] + port) == port,
    decreases port.len(),
{
    let s = address + seq![':'] + port;
    if port.len() == 0 {
        assert(s.last() == ':');
        assert(port =~= Seq::empty());
    } else {
        let rest = port.drop_last();
        assert(port.contains(port[port.len() - 1]));
        assert forall|i: int| 0 <= i < rest.len() implies rest[i] != ':' by {
            assert(port.contains(port[i]));
        }
        lemma_port(address, rest);
        assert(s.drop_last() =~= address + seq![':'] + rest);
        assert(s.last() == port.last());
        assert(rest.push(port.last()) =~= port);
    }
}

/// A caller's timeout is kept from one second to five minutes; below and above
/// that it is the nearer end, and half a minute where none is given.
pub proof fn law_timeouts_are_clamped(s: u64)
    ensures
        1 <= s <= 300 ==> spec_forward_timeout(Some(s)) == s,
        s == 0 ==> spec_forward_timeout(Some(s)) == 1,
        s > 300 ==> spec_forward_timeout(Some(s)) == 300,
        spec_forward_timeout(None) == 30,
{
}

/// A caller gets the answer under the id that it gave: the very result, or the
/// error of the server with its code and message; any other failure stays one.
pub proof fn law_callers_get_their_answer(
    caller: Json,
    result: Json,
    code: i64,
    message: String,
    other: AppError,
    good: AppResult<Json>,
    refused: AppResult<Json>,
    failed: AppResult<Json>,
)
    requires
        call_ensures(forward_reply, (caller, Ok(result)), good),
        call_ensures(forward_reply, (caller, Err(AppError::Rpc { code, message })), refused),
        !(other is Rpc),
        call_ensures(forward_reply, (caller, Err(other)), failed),
    ensures
        good matches Ok(j) && {
            &&& j@.get("id"@) == Some(caller@)
            &&& j@.get("result"@) == Some(result@)
            &&& j@.get("error"@) is None
            &&& j@.get("jsonrpc"@) == Some(JsonView::Str("2.0"@))
        },
        refused matches Ok(j) && {
            &&& j@.get("id"@) == Some(caller@)
            &&& j@.get("result"@) is None
            &&& j@.get("error"@) matches Some(error) && error.get("code"@) == Some(
                JsonView::Number(json::number_of_i64(code)),
            ) && error.get("message"@) == Some(JsonView::Str(message@))
            &&& j@.get("jsonrpc"@) == Some(JsonView::Str("2.0"@))
        },
        failed == Err::<Json, AppError>(other),
{
    protocol::law_envelopes_carry_the_answer(caller@, result@, code, message@);
}

/// What a caller asks for is what goes on: behind the token, the method and the
/// parameters as they are, and with an id the request for it under the clamped
/// timeout. Without the token nothing but the refusal comes back, whatever else
/// is wrong.
pub proof fn law_a_forward_is_what_was_asked(
    gateway: Gateway,
    host: Option<&str>,
    authorization: Option<&str>,
    id: ServerId,
    timeout_s: Option<u64>,
    request: ForwardRequest,
    runtime: Option<RunningServer>,
    r: AppResult<Forward>,
    body: Result<ForwardRequest, String>,
    any: AppResult<Forward>,
)
    requires
        call_ensures(
            mcp_forward,
            (&gateway, host, authorization, id, timeout_s, Ok(request), &runtime),
            r,
        ),
        call_ensures(
            mcp_forward,
            (&gateway, host, authorization, id, timeout_s, body, &runtime),
            any,
        ),
    ensures
        ({
            let let_in = authorized(
                str_option(host),
                str_option(authorization),
                None,
                gateway.host@,
                gateway.token.secret(),
            );
            &&& !let_in ==> (any matches Err(e) && e@ == ErrorView::Unauthorized)
            &&& let_in && runtime is None ==> (r matches Err(e) && e@ == ErrorView::ServerNotFound(
                text::decimal(id as int),
            ))
            &&& let_in && runtime is Some && request.id is None ==> (r matches Ok(f) && f is Notify
                && f->Notify_method == request.method && f->Notify_params == request.params)
            &&& let_in && runtime is Some && request.id is Some ==> (r matches Ok(f) && f is Request
                && f->Request_method == request.method && f->Request_params == request.params
                && f->caller == request.id->0 && f->timeout == spec_forward_timeout(timeout_s))
        }),
{
}

/// Only the very token matches, and the bytes it is made of are spelled in it
/// one after the other.
pub proof fn law_only_the_token_matches(
    bytes: Vec<u8>,
    token: AuthToken,
    candidate: &str,
    r: bool,
    i: int,
)
    requires
        call_ensures(AuthToken::from_bytes, (&bytes,), token),
        call_ensures(AuthToken::matches, (&token, candidate), r),
        0 <= i < bytes@.len(),
    ensures
        r <==> candidate@ == token.secret(),
        token.secret().len() == 2 * bytes@.len(),
        token.secret()[2 * i] == "0123456789abcdef"@[bytes@[i] as int / 16],
        token.secret()[2 * i + 1] == "0123456789abcdef"@[bytes@[i] as int % 16],
{
    law_tokens_spell_their_bytes(bytes@, i);
}

/// Only the webview's own origins may call from a page: two in a release, and
/// besides those the development server in a debug build.
pub proof fn law_only_the_webview_may_call(released: Vec<&'static str>, debug: Vec<&'static str>)
    requires
        call_ensures(cors_layer, (false,), released),
        call_ensures(cors_layer, (true,), debug),
    ensures
        released@.len() == 2,
        released@[0]@ == "tauri://localhost"@,
        released@[1]@ == "http://tauri.localhost"@,
        debug@.len() == 3,
        debug@[0]@ == "tauri://localhost"@,
        debug@[1]@ == "http://tauri.localhost"@,
        debug@[2]@ == "http://localhost:1420"@,
{
    let f = |s: &'static str| s@;
    assert(released@.map_values(f).len() == 2 && debug@.map_values(f).len() == 3);
    assert(released@.map_values(f)[0] == released@[0]@);
    assert(released@.map_values(f)[1] == released@[1]@);
    assert(debug@.map_values(f)[0] == debug@[0]@);
    assert(debug@.map_values(f)[1] == debug@[1]@);
    assert(debug@.map_values(f)[2] == debug@[2]@);
}

/// The gateway lets in exactly those who name it and present its token, and
/// turns everybody else away as unauthorized, whatever it was that was missing.
pub proof fn law_everybody_else_is_unauthorized(
    host: Option<&str>,
    header: Option<&str>,
    query: Option<&str>,
    gateway: Gateway,
    r: AppResult<()>,
    address: Seq<char>,
    port: Seq<char>,
)
    requires
        gateway.host@ == address + seq![':'] + port,
        !port.contains(':'),
        call_ensures(authorize, (host, header, query, &gateway), r),
    ensures
        ({
            let secret = gateway.token.secret();
            let named = host matches Some(h) && (h@ == gateway.host@ || h@ == "localhost:"@ + port);
            let bears = header matches Some(h) && "Bearer "@.is_prefix_of(h@);
            let shown = (header matches Some(h) && h@ == "Bearer "@ + secret) || (!bears && (
            query matches Some(q) && q@ == secret));
            &&& r is Ok <==> named && shown
            &&& r matches Err(e) ==> e@ == ErrorView::Unauthorized
        }),
{
    law_who_is_let_in(
        str_option(host),
        str_option(header),
        str_option(query),
        address,
        port,
        gateway.token.secret(),
    );
}

} // verus!
