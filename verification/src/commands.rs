//! What the panel's commands hand to the webview besides the lifecycle.

use vstd::prelude::*;

use crate::json;
use crate::json::{member, Json, JsonView};
use crate::server::AuthToken;
use crate::text;
use crate::text::concat;

verus! {

broadcast use vstd::string::group_string_axioms;

/// How the webview reaches the gateway; the token is handed over here only,
/// never logged, never persisted.
pub struct GatewayInfo {
    pub url: String,
    pub token: String,
}

/// How to reach the gateway that is bound on `addr`.
pub fn gateway_info(addr: &str, token: &AuthToken) -> (r: GatewayInfo)
    ensures
        r.url@ == "http://"@ + addr@,
        r.token@ == token.secret(),
{
    GatewayInfo { url: concat("http://", addr), token: token.expose().to_owned() }
}

impl GatewayInfo {
    /// The wire shape.
    pub fn to_json(&self) -> (r: Json)
        ensures
            r@ == JsonView::Object(
                seq![("token"@, JsonView::Str(self.token@)), ("url"@, JsonView::Str(self.url@))],
            ),
            r@.wf(),
    {
        broadcast use json::group_json_views;

        let mut members: Vec<(String, Json)> = Vec::new();
        members.push(member("token", Json::string(self.token.as_str())));
        members.push(member("url", Json::string(self.url.as_str())));
        proof {
            reveal_strlit("token");
            reveal_strlit("url");
            let whole = json::entries_view(members@);
            assert(whole =~= seq![
                ("token"@, JsonView::Str(self.token@)),
                ("url"@, JsonView::Str(self.url@)),
            ]);
            assert(text::text_lt("token"@, "url"@));
            json::lemma_object_wf(whole);
        }
        Json::Object(members)
    }
}

/// The webview is told the address that the gateway is bound to and the very
/// token.
pub proof fn law_the_webview_is_told_the_way(
    addr: &str,
    token: AuthToken,
    info: GatewayInfo,
    wire: Json,
)
    requires
        call_ensures(gateway_info, (addr, &token), info),
        call_ensures(GatewayInfo::to_json, (&info,), wire),
    ensures
        wire@.get("url"@) == Some(JsonView::Str("http://"@ + addr@)),
        wire@.get("token"@) == Some(JsonView::Str(token.secret())),
{
    reveal_strlit("token");
    reveal_strlit("url");
    let m = wire@->Object_0;
    assert("token"@.len() == 5 && "url"@.len() == 3);
    assert(m[0].0 == "token"@ && m[1].0 == "url"@);
    json::law_members_are_found_by_name(m, "token"@);
    json::law_members_are_found_by_name(m, "url"@);
}

} // verus!
