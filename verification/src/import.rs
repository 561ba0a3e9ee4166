//! Import server definitions from other MCP clients' config files.
//!
//! Every MCP client stores its servers in essentially the same JSON shape: a
//! map of name to `{command, args, env}` under `mcpServers` (nearly all of
//! them) or `servers` (VS Code). This module says where those files are, parses
//! them into [`ImportCandidate`]s, and decides how the selected ones become
//! servers.
//!
//! Two rules shape the design.
//!
//! **Secret values never reach a preview.** A preview reports
//! credential-looking keys by *name* only ([`ImportCandidate::secret_keys`]);
//! the values stay in [`ParsedServer`], which has no wire shape.
//!
//! **Nothing is silently rewritten.** An entry that cannot be honoured is
//! reported as a [`SkippedEntry`] with the reason, and anything survivable but
//! surprising (an unresolved `${input:..}` placeholder, an `envFile`) becomes
//! a note on the candidate.

use vstd::prelude::*;

use crate::db;
use crate::db::{args_to_json, EnvValue, EnvView, NewServer, ServerId, ServerView};
use crate::error::{AppError, AppResult, ErrorView};
use crate::json;
use crate::json::{member, number_text, parse_json, Json, JsonView};
use crate::strmap;
use crate::strmap::{NameSet, StrMap};
use crate::text;
use crate::text::{
    chars_of, concat, copy_option, copy_texts, is_ascii_alphanumeric, same_text, string_between, trim,
    u128_text, upper_text,
};

verus! {

broadcast use vstd::string::group_string_axioms;

/// One importable server, as shown in the preview. Carries no secret values.
#[derive(Debug, PartialEq)]
pub struct ImportCandidate {
    pub name: String,
    pub command: String,
    pub args: Vec<String>,
    pub cwd: Option<String>,
    /// Plain environment variables, shown as they are.
    pub env: StrMap<String>,
    /// Keys classified as credentials: names only.
    pub secret_keys: Vec<String>,
    /// Non-blocking warnings worth showing next to the entry.
    pub notes: Vec<String>,
    /// A server with this name already exists; importing will suffix it.
    pub conflicts: bool,
}

/// An entry that cannot be imported, and why.
#[derive(Debug, PartialEq)]
pub struct SkippedEntry {
    pub name: String,
    pub reason: String,
}

/// A parsed entry: the previewable candidate plus the secret values held back
/// from it.
pub struct ParsedServer {
    pub candidate: ImportCandidate,
    pub secrets: StrMap<String>,
}

/// Everything one config file yielded.
pub struct ParsedConfig {
    pub servers: Vec<ParsedServer>,
    pub skipped: Vec<SkippedEntry>,
}

#[verifier::ext_equal]
pub struct CandidateView {
    pub name: Seq<char>,
    pub command: Seq<char>,
    pub args: Seq<Seq<char>>,
    pub cwd: Option<Seq<char>>,
    pub env: Seq<(Seq<char>, Seq<char>)>,
    pub secret_keys: Seq<Seq<char>>,
    pub notes: Seq<Seq<char>>,
    pub conflicts: bool,
}

impl View for ImportCandidate {
    type V = CandidateView;

    open spec fn view(&self) -> CandidateView {
        CandidateView {
            name: self.name@,
            command: self.command@,
            args: text::texts(self.args@),
            cwd: text::text_option(self.cwd),
            env: self.env.items(),
            secret_keys: text::texts(self.secret_keys@),
            notes: text::texts(self.notes@),
            conflicts: self.conflicts,
        }
    }
}

#[verifier::ext_equal]
pub struct SkippedView {
    pub name: Seq<char>,
    pub reason: Seq<char>,
}

impl View for SkippedEntry {
    type V = SkippedView;

    open spec fn view(&self) -> SkippedView {
        SkippedView { name: self.name@, reason: self.reason@ }
    }
}

#[verifier::ext_equal]
pub struct ParsedView {
    pub candidate: CandidateView,
    pub secrets: Seq<(Seq<char>, Seq<char>)>,
}

impl View for ParsedServer {
    type V = ParsedView;

    open spec fn view(&self) -> ParsedView {
        ParsedView { candidate: self.candidate@, secrets: self.secrets.items() }
    }
}

#[verifier::ext_equal]
pub struct ConfigView {
    pub servers: Seq<ParsedView>,
    pub skipped: Seq<SkippedView>,
}

impl View for ParsedConfig {
    type V = ConfigView;

    open spec fn view(&self) -> ConfigView {
        ConfigView {
            servers: self.servers@.map_values(|s: ParsedServer| s@),
            skipped: self.skipped@.map_values(|s: SkippedEntry| s@),
        }
    }
}

/// Key segments that mark an environment variable as a credential. The bias is
/// deliberately toward over-classifying: a false positive merely routes a
/// harmless value through the keyring, while a false negative leaves a real
/// token sitting in the config.
pub open spec fn secret_segments() -> Seq<Seq<char>> {
    seq![
        "KEY"@,
        "KEYS"@,
        "APIKEY"@,
        "TOKEN"@,
        "SECRET"@,
        "PASSWORD"@,
        "PASSWD"@,
        "CREDENTIAL"@,
        "CREDENTIALS"@,
        "AUTH"@,
        "PAT"@,
    ]
}

/// `key[from..to]` is one of the segments that `key` splits into at every
/// character that is not an ASCII letter or digit.
pub open spec fn is_segment(key: Seq<char>, from: int, to: int) -> bool {
    &&& 0 <= from <= to <= key.len()
    &&& forall|i: int| from <= i < to ==> text::spec_is_ascii_alphanumeric(#[trigger] key[i])
    &&& from > 0 ==> !text::spec_is_ascii_alphanumeric(key[from - 1])
    &&& to < key.len() ==> !text::spec_is_ascii_alphanumeric(key[to])
}

/// Some segment of `key` marks a credential, in any case.
pub open spec fn secret_key(key: Seq<char>) -> bool {
    exists|from: int, to: int| #[trigger]
        is_segment(key, from, to) && secret_segments().contains(
            text::upper_seq(key.subrange(from, to)),
        )
}

/// `value` holds a `${`, which only the client that wrote it could expand.
pub open spec fn placeholder(value: Seq<char>) -> bool {
    exists|i: int| 0 <= i && i + 1 < value.len() && #[trigger] value[i] == '$' && value[i + 1] == '{'
}

fn is_secret_segment(segment: &str) -> (r: bool)
    ensures
        r == secret_segments().contains(segment@),
{
    let r = same_text(segment, "KEY") || same_text(segment, "KEYS") || same_text(segment, "APIKEY")
        || same_text(segment, "TOKEN") || same_text(segment, "SECRET") || same_text(
        segment,
        "PASSWORD",
    ) || same_text(segment, "PASSWD") || same_text(segment, "CREDENTIAL") || same_text(
        segment,
        "CREDENTIALS",
    ) || same_text(segment, "AUTH") || same_text(segment, "PAT");
    proof {
        let all = secret_segments();
        assert(all[0] == "KEY"@ && all[1] == "KEYS"@ && all[2] == "APIKEY"@ && all[3] == "TOKEN"@
            && all[4] == "SECRET"@ && all[5] == "PASSWORD"@ && all[6] == "PASSWD"@ && all[7]
            == "CREDENTIAL"@ && all[8] == "CREDENTIALS"@ && all[9] == "AUTH"@ && all[10] == "PAT"@);
        assert(all.len() == 11);
        if all.contains(segment@) {
            let i = choose|i: int| 0 <= i < all.len() && all[i] == segment@;
            assert(i == 0 || i == 1 || i == 2 || i == 3 || i == 4 || i == 5 || i == 6 || i == 7 || i
                == 8 || i == 9 || i == 10);
        }
    }
    r
}

/// Whether an environment variable's name marks a credential. Matched per
/// segment, so `OPENAI_API_KEY` matches on `KEY` while `MONKEY_MODE` does not.
pub fn is_secret_key(key: &str) -> (r: bool)
    ensures
        r == secret_key(key@),
{
    let chars = chars_of(key);
    let mut from: usize = 0;
    let mut at: usize = 0;
    loop
        invariant
            chars@ == key@,
            from <= at <= chars@.len(),
            from > 0 ==> !text::spec_is_ascii_alphanumeric(key@[from - 1]),
            forall|i: int| from <= i < at ==> text::spec_is_ascii_alphanumeric(#[trigger] key@[i]),
            forall|a: int, b: int|
                a < from && #[trigger] is_segment(key@, a, b) ==> !secret_segments().contains(
                    text::upper_seq(key@.subrange(a, b)),
                ),
        decreases chars@.len() - at,
    {
        if at == chars.len() || !is_ascii_alphanumeric(chars[at]) {
            let segment = string_between(&chars, from, at);
            let upper = upper_text(segment.as_str());
            assert(is_segment(key@, from as int, at as int));
            if is_secret_segment(upper.as_str()) {
                return true;
            }
            assert forall|a: int, b: int|
                a <= at && #[trigger] is_segment(key@, a, b) implies !secret_segments().contains(
                text::upper_seq(key@.subrange(a, b)),
            ) by {
                if from <= a {
                    lemma_segment_unique(key@, from as int, at as int, a, b);
                }
            }
            if at == chars.len() {
                assert forall|a: int, b: int| #[trigger]
                    is_segment(key@, a, b) implies !secret_segments().contains(
                    text::upper_seq(key@.subrange(a, b)),
                ) by {}
                return false;
            }
            at = at + 1;
            from = at;
        } else {
            at = at + 1;
        }
    }
}

/// Between the start of a segment and its end no other segment starts.
proof fn lemma_segment_unique(key: Seq<char>, from: int, to: int, a: int, b: int)
    requires
        is_segment(key, from, to),
        is_segment(key, a, b),
        from <= a <= to,
    ensures
        a == from,
        b == to,
{
    if a > from {
        assert(text::spec_is_ascii_alphanumeric(key[a - 1]));
    }
    if b < to {
        assert(text::spec_is_ascii_alphanumeric(key[b]));
    }
    if b > to {
        assert(text::spec_is_ascii_alphanumeric(key[to]));
    }
}

/// `${input:api-key}` (VS Code) and `${env:FOO}` resolve inside the client
/// that wrote them; there is no way to expand them here.
pub fn has_placeholder(value: &str) -> (r: bool)
    ensures
        r == placeholder(value@),
{
    let chars = chars_of(value);
    let mut i: usize = 0;
    while i < chars.len()
        invariant
            chars@ == value@,
            i <= chars@.len(),
            forall|j: int|
                0 <= j < i && j + 1 < value@.len() && #[trigger] value@[j] == '$' ==> value@[j + 1]
                    != '{',
        decreases chars@.len() - i,
    {
        if i + 1 < chars.len() && chars[i] == '$' && chars[i + 1] == '{' {
            assert(value@[i as int] == '$');
            return true;
        }
        i = i + 1;
    }
    false
}

/// Text of a scalar: strings as they are, numbers and booleans rendered;
/// objects, arrays and null have none.
pub open spec fn scalar_text(j: JsonView) -> Option<Seq<char>> {
    match j {
        JsonView::Str(s) => Some(s),
        JsonView::Number(n) => Some(json::number_text_of(n)),
        JsonView::Bool(b) => Some(
            if b {
                "true"@
            } else {
                "false"@
            },
        ),
        _ => None,
    }
}

/// JSON scalars become strings; objects, arrays, and null do not. An integer
/// is rendered in decimal.
pub fn scalar_to_string(value: &Json) -> (r: Option<String>)
    ensures
        text::text_option(r) == scalar_text(value@),
        value@.as_i64() matches Some(k) ==> text::text_option(r) == Some(text::decimal(k as int)),
{
    match value {
        Json::Str(s) => Some(s.clone()),
        Json::Number(n) => Some(number_text(n)),
        Json::Bool(b) => Some(
            if *b {
                "true".to_owned()
            } else {
                "false".to_owned()
            },
        ),
        _ => None,
    }
}

/// Every element is a scalar.
pub open spec fn all_scalar(list: Seq<JsonView>) -> bool {
    forall|i: int| 0 <= i < list.len() ==> scalar_text(#[trigger] list[i]) is Some
}

/// The texts of a list of scalars.
pub open spec fn scalar_texts(list: Seq<JsonView>) -> Seq<Seq<char>> {
    list.map_values(|j: JsonView| scalar_text(j)->0)
}

/// What `args` yields: absent means none, and anything but an array of scalars
/// is a reason not to import.
pub open spec fn args_result(raw: Option<JsonView>) -> Result<Seq<Seq<char>>, Seq<char>> {
    match raw {
        None => Ok(Seq::empty()),
        Some(JsonView::Array(list)) => if all_scalar(list) {
            Ok(scalar_texts(list))
        } else {
            Err("\"args\" contains a non-scalar value"@)
        },
        Some(_) => Err("\"args\" is not an array"@),
    }
}

/// What is wrong with one environment variable.
pub open spec fn variable_fault(key: Seq<char>, value: JsonView) -> Option<Seq<char>> {
    if text::spec_trim(key).len() == 0 {
        Some("\"env\" has an empty variable name"@)
    } else if scalar_text(value) is None {
        Some("env "@ + key + " is not a string"@)
    } else {
        None
    }
}

/// What is wrong with the first faulty environment variable.
pub open spec fn env_fault(vars: Seq<(Seq<char>, JsonView)>) -> Option<Seq<char>>
    decreases vars.len(),
{
    if vars.len() == 0 {
        None
    } else {
        match env_fault(vars.drop_last()) {
            Some(reason) => Some(reason),
            None => variable_fault(vars.last().0, vars.last().1),
        }
    }
}

/// A variable goes to the keyring: its name marks a credential, and its value
/// is one (a placeholder is never a usable credential, nor is the empty text).
pub open spec fn credential(key: Seq<char>, value: Seq<char>) -> bool {
    !placeholder(value) && secret_key(key) && value.len() > 0
}

/// The variables of `vars` with the given classification, with their values.
pub open spec fn env_part(vars: Seq<(Seq<char>, JsonView)>, secret: bool) -> Seq<
    (Seq<char>, Seq<char>),
>
    decreases vars.len(),
{
    if vars.len() == 0 {
        Seq::empty()
    } else {
        let rest = env_part(vars.drop_last(), secret);
        let key = vars.last().0;
        let value = scalar_text(vars.last().1)->0;
        if credential(key, value) == secret {
            rest.push((key, value))
        } else {
            rest
        }
    }
}

/// The note on a variable that holds a placeholder.
pub open spec fn placeholder_note(key: Seq<char>) -> Seq<char> {
    key + " holds an unresolved placeholder — set its real value after importing"@
}

/// One note for each variable that holds a placeholder.
pub open spec fn placeholder_notes(vars: Seq<(Seq<char>, JsonView)>) -> Seq<Seq<char>>
    decreases vars.len(),
{
    if vars.len() == 0 {
        Seq::empty()
    } else {
        let rest = placeholder_notes(vars.drop_last());
        if placeholder(scalar_text(vars.last().1)->0) {
            rest.push(placeholder_note(vars.last().0))
        } else {
            rest
        }
    }
}

/// The variables that `env` yields: absent means none.
pub open spec fn env_result(raw: Option<JsonView>) -> Result<
    Seq<(Seq<char>, JsonView)>,
    Seq<char>,
> {
    match raw {
        None => Ok(Seq::empty()),
        Some(JsonView::Object(vars)) => match env_fault(vars) {
            Some(reason) => Err(reason),
            None => Ok(vars),
        },
        Some(_) => Err("\"env\" is not an object"@),
    }
}

/// A string member, trimmed, where that leaves anything.
pub open spec fn trimmed_member(entry: JsonView, name: Seq<char>) -> Option<Seq<char>> {
    match string_member(entry, name) {
        Some(s) => if text::spec_trim(s).len() > 0 {
            Some(text::spec_trim(s))
        } else {
            None
        },
        None => None,
    }
}

/// The text of a string member.
pub open spec fn string_member(entry: JsonView, name: Seq<char>) -> Option<Seq<char>> {
    match entry.get(name) {
        Some(j) => j.as_str(),
        None => None,
    }
}

/// The transport that an entry names, under `type` or else `transport`.
pub open spec fn transport_of(entry: JsonView) -> Option<Seq<char>> {
    if entry.get("type"@) is Some {
        string_member(entry, "type"@)
    } else {
        string_member(entry, "transport"@)
    }
}

/// An entry is about a server that is not spoken to over stdio: the reason
/// names the address or the transport.
pub open spec fn remote_fault(entry: JsonView) -> Option<Seq<char>> {
    match string_member(entry, "url"@) {
        Some(url) => Some("remote server ("@ + url + ") — MCPanel speaks stdio only"@),
        None => match transport_of(entry) {
            Some(transport) => if text::upper_seq(transport) != "STDIO"@ {
                Some(transport + " transport — MCPanel speaks stdio only"@)
            } else {
                None
            },
            None => None,
        },
    }
}

/// What one entry yields: a server, or the reason it cannot be imported.
pub open spec fn entry_result(name: Seq<char>, entry: JsonView) -> Result<ParsedView, Seq<char>> {
    if !(entry is Object) {
        Err("entry is not an object"@)
    } else if remote_fault(entry) is Some {
        Err(remote_fault(entry)->0)
    } else if trimmed_member(entry, "command"@) is None {
        Err("no command"@)
    } else if args_result(entry.get("args"@)) is Err {
        Err(args_result(entry.get("args"@))->Err_0)
    } else if env_result(entry.get("env"@)) is Err {
        Err(env_result(entry.get("env"@))->Err_0)
    } else {
        Ok(entry_server(name, entry))
    }
}

/// The server that an importable entry describes.
pub open spec fn entry_server(name: Seq<char>, entry: JsonView) -> ParsedView {
    let vars = env_result(entry.get("env"@))->Ok_0;
    ParsedView {
        candidate: CandidateView {
            name,
            command: trimmed_member(entry, "command"@)->0,
            args: args_result(entry.get("args"@))->Ok_0,
            cwd: trimmed_member(entry, "cwd"@),
            env: env_part(vars, false),
            secret_keys: env_part(vars, true).map_values(|e: (Seq<char>, Seq<char>)| e.0),
            notes: placeholder_notes(vars) + if entry.get("envFile"@) is Some {
                seq!["envFile is not supported — add those variables by hand"@]
            } else {
                Seq::empty()
            },
            conflicts: false,
        },
        secrets: env_part(vars, true),
    }
}

/// The object that a member holds.
pub open spec fn object_member(root: JsonView, name: Seq<char>) -> Option<
    Seq<(Seq<char>, JsonView)>,
> {
    match root.get(name) {
        Some(JsonView::Object(table)) => Some(table),
        _ => None,
    }
}

/// The table of servers in a config file: `mcpServers`, or else `servers`,
/// whichever is an object.
pub open spec fn server_table(root: JsonView) -> Option<Seq<(Seq<char>, JsonView)>> {
    match object_member(root, "mcpServers"@) {
        Some(table) => Some(table),
        None => object_member(root, "servers"@),
    }
}

/// What one named entry of the table yields; a blank name yields nothing but
/// its report.
pub open spec fn named_result(name: Seq<char>, entry: JsonView) -> Result<ParsedView, SkippedView> {
    if text::spec_trim(name).len() == 0 {
        Err(SkippedView { name: "(unnamed)"@, reason: "entry has an empty name"@ })
    } else {
        match entry_result(name, entry) {
            Ok(server) => Ok(server),
            Err(reason) => Err(SkippedView { name, reason }),
        }
    }
}

/// What a table yields: each entry goes to one of the two lists, in order.
pub open spec fn table_result(table: Seq<(Seq<char>, JsonView)>) -> ConfigView
    decreases table.len(),
{
    if table.len() == 0 {
        ConfigView { servers: Seq::empty(), skipped: Seq::empty() }
    } else {
        let rest = table_result(table.drop_last());
        match named_result(table.last().0, table.last().1) {
            Ok(server) => ConfigView { servers: rest.servers.push(server), skipped: rest.skipped },
            Err(entry) => ConfigView { servers: rest.servers, skipped: rest.skipped.push(entry) },
        }
    }
}

/// What a parsed file yields.
pub open spec fn root_result(root: JsonView) -> Result<ConfigView, ErrorView> {
    match server_table(root) {
        Some(table) => Ok(table_result(table)),
        None => Err(
            ErrorView::InvalidInput(
                "not an MCP client config: no \"mcpServers\" or \"servers\" object"@,
            ),
        ),
    }
}

/// What the text of a file yields.
pub open spec fn config_result(text: Seq<char>) -> Result<ConfigView, ErrorView> {
    match json::json_text(text) {
        Ok(root) => root_result(root),
        Err(message) => Err(ErrorView::Json(message)),
    }
}

fn get_string<'a>(entry: &'a Json, name: &str) -> (r: Option<&'a str>)
    ensures
        match r {
            Some(s) => string_member(entry@, name@) == Some(s@),
            None => string_member(entry@, name@) is None,
        },
{
    match entry.get(name) {
        Some(j) => j.as_str(),
        None => None,
    }
}

fn get_trimmed(entry: &Json, name: &str) -> (r: Option<String>)
    ensures
        text::text_option(r) == trimmed_member(entry@, name@),
{
    match get_string(entry, name) {
        Some(s) => {
            let trimmed = trim(s);
            if is_blank(s) {
                None
            } else {
                Some(trimmed)
            }
        },
        None => None,
    }
}

/// Whether trimming leaves nothing.
fn is_blank(s: &str) -> (r: bool)
    ensures
        r == (text::spec_trim(s@).len() == 0),
{
    let trimmed = trim(s);
    let left = chars_of(trimmed.as_str());
    left.len() == 0
}

fn parse_args(entry: &Json) -> (r: Result<Vec<String>, String>)
    ensures
        match r {
            Ok(args) => args_result(entry@.get("args"@)) == Ok::<Seq<Seq<char>>, Seq<char>>(
                text::texts(args@),
            ),
            Err(e) => args_result(entry@.get("args"@)) == Err::<Seq<Seq<char>>, Seq<char>>(e@),
        },
{
    broadcast use json::group_json_views;

    let mut args: Vec<String> = Vec::new();
    match entry.get("args") {
        None => {
            assert(text::texts(args@) =~= Seq::empty());
            Ok(args)
        },
        Some(Json::Array(list)) => {
            let ghost whole = json::items_view(list@);
            let mut i: usize = 0;
            while i < list.len()
                invariant
                    i <= list.len(),
                    whole == json::items_view(list@),
                    entry@.get("args"@) == Some(JsonView::Array(whole)),
                    forall|j: int| 0 <= j < i ==> scalar_text(#[trigger] whole[j]) is Some,
                    text::texts(args@) =~= scalar_texts(whole.take(i as int)),
                decreases list.len() - i,
            {
                assert(whole[i as int] == list@[i as int]@);
                match scalar_to_string(&list[i]) {
                    Some(arg) => {
                        let ghost before = args@;
                        args.push(arg);
                        assert(text::texts(args@) =~= text::texts(before).push(arg@));
                        assert(scalar_texts(whole.take(i + 1)) =~= scalar_texts(
                            whole.take(i as int),
                        ).push(arg@));
                    },
                    None => {
                        return Err("\"args\" contains a non-scalar value".to_owned());
                    },
                }
                i = i + 1;
            }
            assert(whole.take(whole.len() as int) =~= whole);
            Ok(args)
        },
        Some(_) => Err("\"args\" is not an array".to_owned()),
    }
}

/// The variables of an `env` object, sorted out.
struct SortedEnv {
    plain: StrMap<String>,
    secrets: StrMap<String>,
    secret_keys: Vec<String>,
    notes: Vec<String>,
}

spec fn sorted_from(s: SortedEnv, vars: Seq<(Seq<char>, JsonView)>) -> bool {
    &&& s.plain.items() == env_part(vars, false)
    &&& s.secrets.items() == env_part(vars, true)
    &&& text::texts(s.secret_keys@) == env_part(vars, true).map_values(|e: (Seq<char>, Seq<char>)| e.0)
    &&& text::texts(s.notes@) == placeholder_notes(vars)
}

/// Every key of a part is a key of the whole.
proof fn lemma_part_keys(vars: Seq<(Seq<char>, JsonView)>, secret: bool)
    ensures
        forall|i: int|
            0 <= i < env_part(vars, secret).len() ==> strmap::has_key(
                vars,
                (#[trigger] env_part(vars, secret)[i]).0,
            ),
    decreases vars.len(),
{
    if vars.len() > 0 {
        let rest = vars.drop_last();
        lemma_part_keys(rest, secret);
        assert forall|i: int| 0 <= i < env_part(vars, secret).len() implies strmap::has_key(
            vars,
            (#[trigger] env_part(vars, secret)[i]).0,
        ) by {
            if i < env_part(rest, secret).len() {
                let k = env_part(rest, secret)[i].0;
                assert(strmap::has_key(rest, k));
                let j = choose|j: int| 0 <= j < rest.len() && (#[trigger] rest[j]).0 == k;
                assert(vars[j].0 == k);
            } else {
                assert(vars[vars.len() - 1].0 == env_part(vars, secret)[i].0);
            }
        }
    }
}

/// In an ascending object, the keys of a part of what comes before a variable
/// come before it.
proof fn lemma_part_before(vars: Seq<(Seq<char>, JsonView)>, n: int, secret: bool)
    requires
        json::names_ascend(vars),
        0 <= n < vars.len(),
    ensures
        forall|i: int|
            0 <= i < env_part(vars.take(n), secret).len() ==> text::text_lt(
                (#[trigger] env_part(vars.take(n), secret)[i]).0,
                vars[n].0,
            ),
{
    let before = vars.take(n);
    lemma_part_keys(before, secret);
    assert forall|i: int| 0 <= i < env_part(before, secret).len() implies text::text_lt(
        (#[trigger] env_part(before, secret)[i]).0,
        vars[n].0,
    ) by {
        let k = env_part(before, secret)[i].0;
        let j = choose|j: int| 0 <= j < before.len() && (#[trigger] before[j]).0 == k;
        assert(vars[j].0 == k);
    }
}

/// The first fault of a prefix is the fault of the whole.
proof fn lemma_fault_prefix(vars: Seq<(Seq<char>, JsonView)>, n: int)
    requires
        0 <= n <= vars.len(),
        env_fault(vars.take(n)) is Some,
    ensures
        env_fault(vars) == env_fault(vars.take(n)),
    decreases vars.len() - n,
{
    if n < vars.len() {
        assert(vars.take(n + 1).drop_last() =~= vars.take(n));
        lemma_fault_prefix(vars, n + 1);
    } else {
        assert(vars.take(n) =~= vars);
    }
}

fn sort_variable(out: SortedEnv, vars: &Vec<(String, Json)>, i: usize, value: String) -> (r:
    SortedEnv)
    requires
        i < vars@.len(),
        json::names_ascend(json::entries_view(vars@)),
        sorted_from(out, json::entries_view(vars@).take(i as int)),
        scalar_text(vars@[i as int].1@) == Some(value@),
    ensures
        sorted_from(r, json::entries_view(vars@).take(i + 1)),
{
    let ghost whole = json::entries_view(vars@);
    let ghost now = whole.take(i + 1);
    proof {
        assert(whole[i as int] == (vars@[i as int].0@, vars@[i as int].1@));
        assert(now.drop_last() =~= whole.take(i as int));
        assert(now.last() == whole[i as int]);
        lemma_part_before(whole, i as int, false);
        lemma_part_before(whole, i as int, true);
    }
    let mut out = out;
    let ghost plain0 = out.plain.items();
    let ghost secret0 = out.secrets.items();
    let ghost keys0 = out.secret_keys@;
    let ghost notes0 = out.notes@;
    let key = &vars[i].0;
    if has_placeholder(value.as_str()) {
        let note = concat(
            key.as_str(),
            " holds an unresolved placeholder — set its real value after importing",
        );
        out.notes.push(note);
        assert(text::texts(out.notes@) =~= text::texts(notes0).push(note@));
        out.plain.insert(key.clone(), value);
    } else if is_secret_key(key.as_str()) && chars_of(value.as_str()).len() > 0 {
        let name = key.clone();
        out.secret_keys.push(name);
        assert(text::texts(out.secret_keys@) =~= text::texts(keys0).push(name@));
        out.secrets.insert(key.clone(), value);
        assert(secret0.push((key@, value@)).map_values(|e: (Seq<char>, Seq<char>)| e.0)
            =~= secret0.map_values(|e: (Seq<char>, Seq<char>)| e.0).push(key@));
    } else {
        out.plain.insert(key.clone(), value);
    }
    out
}

fn parse_env(entry: &Json) -> (r: Result<SortedEnv, String>)
    requires
        entry@.wf(),
    ensures
        match r {
            Ok(s) => env_result(entry@.get("env"@)) is Ok && sorted_from(
                s,
                env_result(entry@.get("env"@))->Ok_0,
            ),
            Err(e) => env_result(entry@.get("env"@)) == Err::<
                Seq<(Seq<char>, JsonView)>,
                Seq<char>,
            >(e@),
        },
{
    broadcast use json::group_json_views;

    let mut out = SortedEnv {
        plain: StrMap::new(),
        secrets: StrMap::new(),
        secret_keys: Vec::new(),
        notes: Vec::new(),
    };
    assert(sorted_from(out, Seq::empty())) by {
        assert(text::texts(out.notes@) =~= Seq::empty());
        assert(text::texts(out.secret_keys@) =~= Seq::empty());
        assert(Seq::<(Seq<char>, Seq<char>)>::empty().map_values(
            |e: (Seq<char>, Seq<char>)| e.0,
        ) =~= Seq::empty());
    }
    match entry.get("env") {
        None => Ok(out),
        Some(Json::Object(vars)) => {
            let ghost whole = json::entries_view(vars@);
            proof {
                lemma_member_wf(entry@, "env"@);
                assert(whole.take(0) =~= Seq::empty());
            }
            let mut i: usize = 0;
            while i < vars.len()
                invariant
                    i <= vars.len(),
                    whole == json::entries_view(vars@),
                    json::names_ascend(whole),
                    entry@.get("env"@) == Some(JsonView::Object(whole)),
                    env_fault(whole.take(i as int)) is None,
                    sorted_from(out, whole.take(i as int)),
                decreases vars.len() - i,
            {
                let ghost now = whole.take(i + 1);
                assert(whole[i as int] == (vars@[i as int].0@, vars@[i as int].1@));
                assert(now.drop_last() =~= whole.take(i as int));
                assert(now.last() == whole[i as int]);
                if is_blank(vars[i].0.as_str()) {
                    proof {
                        lemma_fault_prefix(whole, i + 1);
                    }
                    return Err("\"env\" has an empty variable name".to_owned());
                }
                match scalar_to_string(&vars[i].1) {
                    Some(value) => {
                        out = sort_variable(out, vars, i, value);
                    },
                    None => {
                        proof {
                            lemma_fault_prefix(whole, i + 1);
                        }
                        let head = concat("env ", vars[i].0.as_str());
                        return Err(concat(head.as_str(), " is not a string"));
                    },
                }
                i = i + 1;
            }
            assert(whole.take(whole.len() as int) =~= whole);
            Ok(out)
        },
        Some(_) => Err("\"env\" is not an object".to_owned()),
    }
}

/// A member of a well-formed value is well-formed.
proof fn lemma_member_wf(j: JsonView, name: Seq<char>)
    requires
        j.wf(),
    ensures
        j.get(name) matches Some(k) ==> k.wf(),
{
    if j is Object {
        lemma_lookup_wf(j->Object_0, name);
    }
}

proof fn lemma_lookup_wf(entries: Seq<(Seq<char>, JsonView)>, name: Seq<char>)
    requires
        forall|i: int| 0 <= i < entries.len() ==> (#[trigger] entries[i]).1.wf(),
    ensures
        json::lookup(entries, name) matches Some(k) ==> k.wf(),
    decreases entries.len(),
{
    if entries.len() > 0 {
        assert(entries[0].1.wf());
        let rest = entries.drop_first();
        assert forall|i: int| 0 <= i < rest.len() implies (#[trigger] rest[i]).1.wf() by {
            assert(entries[i + 1].1.wf());
        }
        lemma_lookup_wf(rest, name);
    }
}

fn remote_reason(entry: &Json) -> (r: Option<String>)
    ensures
        text::text_option(r) == remote_fault(entry@),
{
    match get_string(entry, "url") {
        Some(url) => {
            let head = concat("remote server (", url);
            return Some(concat(head.as_str(), ") — MCPanel speaks stdio only"));
        },
        None => {},
    }
    let transport = if entry.has("type") {
        get_string(entry, "type")
    } else {
        get_string(entry, "transport")
    };
    match transport {
        Some(transport) => {
            let upper = upper_text(transport);
            if same_text(upper.as_str(), "STDIO") {
                None
            } else {
                Some(concat(transport, " transport — MCPanel speaks stdio only"))
            }
        },
        None => None,
    }
}

/// One `name` to `{..}` entry. `Err` carries the user-facing reason it can't be
/// imported.
pub fn parse_entry(name: &str, entry: &Json) -> (r: Result<ParsedServer, String>)
    requires
        entry@.wf(),
    ensures
        match r {
            Ok(server) => entry_result(name@, entry@) == Ok::<ParsedView, Seq<char>>(server@),
            Err(reason) => entry_result(name@, entry@) == Err::<ParsedView, Seq<char>>(reason@),
        },
{
    match entry {
        Json::Object(_) => {},
        _ => {
            return Err("entry is not an object".to_owned());
        },
    }
    match remote_reason(entry) {
        Some(reason) => {
            return Err(reason);
        },
        None => {},
    }
    let command = match get_trimmed(entry, "command") {
        Some(command) => command,
        None => {
            return Err("no command".to_owned());
        },
    };
    let args = match parse_args(entry) {
        Ok(args) => args,
        Err(reason) => {
            return Err(reason);
        },
    };
    let sorted = match parse_env(entry) {
        Ok(sorted) => sorted,
        Err(reason) => {
            return Err(reason);
        },
    };
    let mut notes = sorted.notes;
    let ghost notes0 = notes@;
    if entry.has("envFile") {
        notes.push("envFile is not supported — add those variables by hand".to_owned());
        assert(text::texts(notes@) =~= text::texts(notes0) + seq![
            "envFile is not supported — add those variables by hand"@,
        ]);
    } else {
        assert(text::texts(notes@) =~= text::texts(notes0) + Seq::empty());
    }
    let cwd = get_trimmed(entry, "cwd");
    let candidate = ImportCandidate {
        name: name.to_owned(),
        command,
        args,
        cwd,
        env: sorted.plain,
        secret_keys: sorted.secret_keys,
        notes,
        conflicts: false,
    };
    let server = ParsedServer { candidate, secrets: sorted.secrets };
    assert(server@ =~= entry_server(name@, entry@));
    Ok(server)
}

/// Sort out what a parsed config file offers.
///
/// Errs only when the file holds no server table at all: an entry that cannot
/// be imported becomes a [`SkippedEntry`].
pub fn parse_root(root: &Json) -> (r: AppResult<ParsedConfig>)
    requires
        root@.wf(),
    ensures
        match r {
            Ok(config) => root_result(root@) == Ok::<ConfigView, ErrorView>(config@),
            Err(e) => root_result(root@) == Err::<ConfigView, ErrorView>(e@),
        },
{
    broadcast use json::group_json_views;

    let table = match root.get("mcpServers") {
        Some(Json::Object(table)) => table,
        _ => match root.get("servers") {
            Some(Json::Object(table)) => table,
            _ => {
                return Err(
                    AppError::InvalidInput(
                        "not an MCP client config: no \"mcpServers\" or \"servers\" object".to_owned(),
                    ),
                );
            },
        },
    };
    let ghost whole = json::entries_view(table@);
    proof {
        lemma_member_wf(root@, "mcpServers"@);
        lemma_member_wf(root@, "servers"@);
    }
    let mut config = ParsedConfig { servers: Vec::new(), skipped: Vec::new() };
    assert(config@ =~= table_result(whole.take(0)));
    let mut i: usize = 0;
    while i < table.len()
        invariant
            i <= table.len(),
            whole == json::entries_view(table@),
            server_table(root@) == Some(whole),
            JsonView::Object(whole).wf(),
            config@ == table_result(whole.take(i as int)),
        decreases table.len() - i,
    {
        let ghost now = whole.take(i + 1);
        let ghost before = config@;
        assert(whole[i as int] == (table@[i as int].0@, table@[i as int].1@));
        assert(whole[i as int].1.wf());
        assert(now.drop_last() =~= whole.take(i as int));
        assert(now.last() == whole[i as int]);
        let name = table[i].0.as_str();
        if is_blank(name) {
            let entry = SkippedEntry {
                name: "(unnamed)".to_owned(),
                reason: "entry has an empty name".to_owned(),
            };
            config.skipped.push(entry);
            assert(config@.skipped =~= before.skipped.push(entry@));
            assert(config@.servers =~= before.servers);
        } else {
            match parse_entry(name, &table[i].1) {
                Ok(server) => {
                    config.servers.push(server);
                    assert(config@.servers =~= before.servers.push(server@));
                    assert(config@.skipped =~= before.skipped);
                },
                Err(reason) => {
                    let entry = SkippedEntry { name: name.to_owned(), reason };
                    config.skipped.push(entry);
                    assert(config@.skipped =~= before.skipped.push(entry@));
                    assert(config@.servers =~= before.servers);
                },
            }
        }
        i = i + 1;
    }
    assert(whole.take(whole.len() as int) =~= whole);
    Ok(config)
}

/// Parse one client config file's text.
///
/// Errs only when the file is not JSON or holds no server table at all, so one
/// broken entry never costs the user the rest of the file.
pub fn parse_config(text: &str) -> (r: AppResult<ParsedConfig>)
    ensures
        match r {
            Ok(config) => config_result(text@) == Ok::<ConfigView, ErrorView>(config@),
            Err(e) => config_result(text@) == Err::<ConfigView, ErrorView>(e@),
        },
{
    match parse_json(text) {
        Ok(root) => parse_root(&root),
        Err(message) => Err(AppError::Json(message)),
    }
}

impl Clone for ImportCandidate {
    fn clone(&self) -> (r: ImportCandidate)
        ensures
            r@ == self@,
    {
        ImportCandidate {
            name: self.name.clone(),
            command: self.command.clone(),
            args: copy_texts(&self.args),
            cwd: copy_option(&self.cwd),
            env: self.env.duplicate(),
            secret_keys: copy_texts(&self.secret_keys),
            notes: copy_texts(&self.notes),
            conflicts: self.conflicts,
        }
    }
}

/// Plain variables as an object.
pub open spec fn plain_json(env: Seq<(Seq<char>, Seq<char>)>) -> JsonView {
    JsonView::Object(env.map_values(|e: (Seq<char>, Seq<char>)| (e.0, JsonView::Str(e.1))))
}

/// The wire shape of a candidate.
pub open spec fn candidate_json(c: CandidateView) -> JsonView {
    JsonView::Object(
        seq![
            ("args"@, db::args_json(c.args)),
            ("command"@, JsonView::Str(c.command)),
            ("conflicts"@, JsonView::Bool(c.conflicts)),
            (
                "cwd"@,
                match c.cwd {
                    Some(path) => JsonView::Str(path),
                    None => JsonView::Null,
                },
            ),
            ("env"@, plain_json(c.env)),
            ("name"@, JsonView::Str(c.name)),
            ("notes"@, db::args_json(c.notes)),
            ("secret_keys"@, db::args_json(c.secret_keys)),
        ],
    )
}

fn plain_to_json(env: &StrMap<String>) -> (r: Json)
    ensures
        r@ == plain_json(env.items()),
        r@.wf(),
{
    broadcast use json::group_json_views;

    let ghost whole = plain_json(env.items())->Object_0;
    let count: usize = env.len();
    let mut members: Vec<(String, Json)> = Vec::new();
    let mut i: usize = 0;
    while i < count
        invariant
            i <= count,
            count == env.items().len(),
            strmap::ascending(env.items()),
            whole == plain_json(env.items())->Object_0,
            json::entries_view(members@) =~= whole.take(i as int),
        decreases count - i,
    {
        let ghost before = members@;
        let entry = member(env.key_at(i), Json::string(env.value_at(i).as_str()));
        members.push(entry);
        assert(json::entries_view(members@) =~= json::entries_view(before).push(
            (entry.0@, entry.1@),
        ));
        assert(whole[i as int] == (entry.0@, entry.1@));
        assert(whole.take(i + 1) =~= whole.take(i as int).push((entry.0@, entry.1@)));
        i = i + 1;
    }
    assert(json::entries_view(members@) =~= whole);
    proof {
        let items = env.items();
        assert forall|a: int, b: int| 0 <= a < b < whole.len() implies text::text_lt(
            #[trigger] whole[a].0,
            #[trigger] whole[b].0,
        ) by {
            assert(whole[a].0 == items[a].0 && whole[b].0 == items[b].0);
        }
        json::lemma_object_wf(whole);
    }
    Json::Object(members)
}

proof fn lemma_candidate_names(c: CandidateView)
    ensures
        json::names_ascend(candidate_json(c)->Object_0),
{
    reveal_strlit("args");
    reveal_strlit("command");
    reveal_strlit("conflicts");
    reveal_strlit("cwd");
    reveal_strlit("env");
    reveal_strlit("name");
    reveal_strlit("notes");
    reveal_strlit("secret_keys");
    let a = "command"@.drop_first();
    let b = "conflicts"@.drop_first();
    assert(a.drop_first()[0] == 'm' && b.drop_first()[0] == 'n');
    assert(text::text_lt(a.drop_first(), b.drop_first()));
    assert(a[0] == 'o' && b[0] == 'o');
    assert(text::text_lt(a, b));
    assert(text::text_lt("command"@, "conflicts"@));
    assert("cwd"@.drop_first()[0] == 'w');
    assert(text::text_lt(b, "cwd"@.drop_first()));
    assert(text::text_lt("conflicts"@, "cwd"@));
    assert("name"@.drop_first()[0] == 'a' && "notes"@.drop_first()[0] == 'o');
    assert(text::text_lt("name"@.drop_first(), "notes"@.drop_first()));
    assert(text::text_lt("name"@, "notes"@));
    json::lemma_names_ascend(candidate_json(c)->Object_0);
}

impl ImportCandidate {
    /// The wire shape: nothing but what the candidate holds.
    pub fn to_json(&self) -> (r: Json)
        ensures
            r@ == candidate_json(self@),
            r@.wf(),
    {
        broadcast use json::group_json_views;

        let mut members: Vec<(String, Json)> = Vec::new();
        members.push(member("args", args_to_json(&self.args)));
        members.push(member("command", Json::string(self.command.as_str())));
        members.push(member("conflicts", Json::Bool(self.conflicts)));
        let cwd = match &self.cwd {
            Some(path) => Json::string(path.as_str()),
            None => Json::Null,
        };
        members.push(member("cwd", cwd));
        members.push(member("env", plain_to_json(&self.env)));
        members.push(member("name", Json::string(self.name.as_str())));
        members.push(member("notes", args_to_json(&self.notes)));
        members.push(member("secret_keys", args_to_json(&self.secret_keys)));
        assert(json::entries_view(members@) =~= candidate_json(self@)->Object_0);
        proof {
            lemma_candidate_names(self@);
            json::lemma_object_wf(candidate_json(self@)->Object_0);
        }
        Json::Object(members)
    }
}

impl ParsedConfig {
    /// The candidates for the preview: no secret value among them.
    pub fn candidates(&self) -> (r: Vec<ImportCandidate>)
        ensures
            r@.map_values(|c: ImportCandidate| c@) == self@.servers.map_values(
                |s: ParsedView| s.candidate,
            ),
    {
        let ghost want = self@.servers.map_values(|s: ParsedView| s.candidate);
        let mut out: Vec<ImportCandidate> = Vec::new();
        let mut i: usize = 0;
        while i < self.servers.len()
            invariant
                i <= self.servers.len(),
                want == self@.servers.map_values(|s: ParsedView| s.candidate),
                out@.map_values(|c: ImportCandidate| c@) =~= want.take(i as int),
            decreases self.servers.len() - i,
        {
            let ghost before = out@;
            let candidate = self.servers[i].candidate.clone();
            out.push(candidate);
            assert(out@.map_values(|c: ImportCandidate| c@) =~= before.map_values(
                |c: ImportCandidate| c@,
            ).push(candidate@));
            assert(want[i as int] == candidate@);
            assert(want.take(i + 1) =~= want.take(i as int).push(candidate@));
            i = i + 1;
        }
        assert(want.take(want.len() as int) =~= want);
        out
    }

    /// The entries that cannot be imported.
    pub fn skipped(&self) -> (r: &[SkippedEntry])
        ensures
            r@ == self.skipped@,
            r@.map_values(|s: SkippedEntry| s@) == self@.skipped,
    {
        self.skipped.as_slice()
    }

    /// Nothing to offer: neither importable nor explained. Discovery drops
    /// these files rather than listing an empty source.
    pub fn is_empty(&self) -> (r: bool)
        ensures
            r == (self@.servers.len() == 0 && self@.skipped.len() == 0),
    {
        self.servers.len() == 0 && self.skipped.len() == 0
    }
}

/// Mark candidates whose name is already taken so the UI can warn before
/// importing renames them.
pub fn mark_conflicts(candidates: &mut Vec<ImportCandidate>, existing: &NameSet)
    ensures
        final(candidates)@.len() == old(candidates)@.len(),
        forall|i: int|
            0 <= i < old(candidates)@.len() ==> (#[trigger] final(candidates)@[i])@ == (
            CandidateView {
                conflicts: existing@.contains(old(candidates)@[i]@.name),
                ..old(candidates)@[i]@
            }),
{
    let ghost before = candidates@;
    let mut i: usize = 0;
    while i < candidates.len()
        invariant
            i <= candidates@.len(),
            candidates@.len() == before.len(),
            forall|j: int|
                0 <= j < i ==> (#[trigger] candidates@[j])@ == (CandidateView {
                    conflicts: existing@.contains(before[j]@.name),
                    ..before[j]@
                }),
            forall|j: int| i <= j < before.len() ==> #[trigger] candidates@[j] == before[j],
        decreases candidates@.len() - i,
    {
        let taken = existing.contains(candidates[i].name.as_str());
        let candidate = &mut candidates[i];
        candidate.conflicts = taken;
        i = i + 1;
    }
}

/// `base (n)`.
pub open spec fn suffixed(base: Seq<char>, n: int) -> Seq<char> {
    base + " ("@ + text::decimal(n) + ")"@
}

/// The first of `base`, `base (2)`, `base (3)`, .. that is not taken.
pub open spec fn is_unique_name(name: Seq<char>, base: Seq<char>, taken: Set<Seq<char>>) -> bool {
    if !taken.contains(base) {
        name == base
    } else {
        exists|n: int|
            n >= 2 && name == #[trigger] suffixed(base, n) && !taken.contains(name) && forall|
                m: int,
            |
                2 <= m < n ==> taken.contains(#[trigger] suffixed(base, m))
    }
}

proof fn lemma_suffixed_injective(base: Seq<char>, m: int, n: int)
    requires
        suffixed(base, m) == suffixed(base, n),
    ensures
        m == n,
{
    reveal_strlit(" (");
    reveal_strlit(")");
    let head = base + " ("@;
    let a = suffixed(base, m);
    let b = suffixed(base, n);
    assert(text::decimal(m) =~= a.subrange(head.len() as int, a.len() - 1));
    assert(text::decimal(n) =~= b.subrange(head.len() as int, b.len() - 1));
    text::lemma_decimal_injective(m, n);
}

/// If `base (2)` .. `base (n - 1)` are all among the names of a list, the list
/// has at least as many names.
proof fn lemma_suffixes_fill(base: Seq<char>, list: Seq<Seq<char>>, n: int)
    requires
        n >= 2,
        forall|m: int| 2 <= m < n ==> list.to_set().contains(#[trigger] suffixed(base, m)),
    ensures
        n - 2 <= list.len(),
{
    let names = Seq::new((n - 2) as nat, |i: int| suffixed(base, i + 2));
    assert(names.no_duplicates()) by {
        assert forall|i: int, j: int| 0 <= i < names.len() && 0 <= j < names.len() && i
            != j implies names[i] != names[j] by {
            if names[i] == names[j] {
                lemma_suffixed_injective(base, i + 2, j + 2);
            }
        }
    }
    names.unique_seq_to_set();
    list.lemma_cardinality_of_set();
    assert(names.to_set().subset_of(list.to_set())) by {
        assert forall|x: Seq<char>| names.to_set().contains(x) implies list.to_set().contains(
            x,
        ) by {
            let i = choose|i: int| 0 <= i < names.len() && names[i] == x;
            assert(x == suffixed(base, i + 2));
        }
    }
    vstd::set_lib::lemma_len_subset(names.to_set(), list.to_set());
}

/// First free `name`, `name (2)`, `name (3)`..
pub fn unique_name(base: &str, taken: &NameSet) -> (r: String)
    ensures
        is_unique_name(r@, base@, taken@),
        !taken@.contains(r@),
{
    if !taken.contains(base) {
        return base.to_owned();
    }
    let head = concat(base, " (");
    let count: usize = taken.count();
    let mut n: u128 = 2;
    loop
        invariant
            2 <= n <= count + 2,
            count == taken.list().len(),
            taken@ == taken.list().to_set(),
            taken@.contains(base@),
            head@ == base@ + " ("@,
            forall|m: int| 2 <= m < n ==> taken@.contains(#[trigger] suffixed(base@, m)),
        decreases count + 3 - n,
    {
        let number = u128_text(n);
        let open = concat(head.as_str(), number.as_str());
        let name = concat(open.as_str(), ")");
        assert(name@ == suffixed(base@, n as int));
        if !taken.contains(name.as_str()) {
            return name;
        }
        proof {
            lemma_suffixes_fill(base@, taken.list(), n + 1);
        }
        n = n + 1;
    }
}

/// The platforms that keep application data in different places.
#[derive(Clone, Copy, Debug, PartialEq, Eq, Structural)]
pub enum Platform {
    MacOs,
    Windows,
    /// Linux and everything else that follows the freedesktop layout.
    Unix,
}

/// What the path of a client's config file starts from.
#[derive(Clone, Copy, Debug, PartialEq, Eq, Structural)]
pub enum Base {
    /// The per-platform application data directory.
    AppData,
    /// The user's home directory.
    Home,
}

/// A client and where it keeps its config file.
pub struct ClientLocation {
    client: String,
    base: Base,
    below: Vec<String>,
}

#[verifier::ext_equal]
pub struct LocationView {
    pub client: Seq<char>,
    pub base: Base,
    pub below: Seq<Seq<char>>,
}

impl View for ClientLocation {
    type V = LocationView;

    closed spec fn view(&self) -> LocationView {
        LocationView { client: self.client@, base: self.base, below: text::texts(self.below@) }
    }
}

/// A name that is one component of a path on every platform.
pub open spec fn plain_name(name: Seq<char>) -> bool {
    &&& name.len() > 0
    &&& name != "."@
    &&& name != ".."@
    &&& forall|i: int|
        0 <= i < name.len() ==> #[trigger] name[i] != '/' && name[i] != '\\' && name[i] != ':'
}

/// Every name is plain.
pub open spec fn plain_names(names: Seq<Seq<char>>) -> bool {
    forall|i: int| 0 <= i < names.len() ==> plain_name(#[trigger] names[i])
}

fn is_plain_name(name: &str) -> (r: bool)
    ensures
        r == plain_name(name@),
{
    let chars = chars_of(name);
    if chars.len() == 0 || same_text(name, ".") || same_text(name, "..") {
        return false;
    }
    let mut i: usize = 0;
    while i < chars.len()
        invariant
            chars@ == name@,
            i <= chars@.len(),
            forall|j: int|
                0 <= j < i ==> #[trigger] name@[j] != '/' && name@[j] != '\\' && name@[j] != ':',
        decreases chars@.len() - i,
    {
        if chars[i] == '/' || chars[i] == '\\' || chars[i] == ':' {
            assert(!(name@[i as int] != '/' && name@[i as int] != '\\' && name@[i as int] != ':'));
            return false;
        }
        i = i + 1;
    }
    true
}

impl ClientLocation {
    #[verifier::type_invariant]
    spec fn inv(self) -> bool {
        plain_names(text::texts(self.below@))
    }

    /// A client's location: the names of the directories below the base and of
    /// the file, each of which must be plain.
    pub fn new(client: String, base: Base, below: Vec<String>) -> (r: Option<ClientLocation>)
        ensures
            r is Some == plain_names(text::texts(below@)),
            r matches Some(l) ==> l@ == (LocationView {
                client: client@,
                base,
                below: text::texts(below@),
            }),
    {
        let mut i: usize = 0;
        while i < below.len()
            invariant
                i <= below.len(),
                forall|j: int| 0 <= j < i ==> plain_name(#[trigger] text::texts(below@)[j]),
            decreases below.len() - i,
        {
            assert(text::texts(below@)[i as int] == below@[i as int]@);
            if !is_plain_name(below[i].as_str()) {
                return None;
            }
            i = i + 1;
        }
        Some(ClientLocation { client, base, below })
    }
}

/// The clients that are known without being told.
pub open spec fn known_locations() -> Seq<LocationView> {
    seq![
        LocationView {
            client: "VS Code"@,
            base: Base::AppData,
            below: seq!["Code"@, "User"@, "mcp.json"@],
        },
        LocationView {
            client: "Cursor"@,
            base: Base::Home,
            below: seq![".cursor"@, "mcp.json"@],
        },
        LocationView {
            client: "Windsurf"@,
            base: Base::Home,
            below: seq![".codeium"@, "windsurf"@, "mcp_config.json"@],
        },
    ]
}

proof fn lemma_known_names()
    ensures
        plain_name("Code"@),
        plain_name("User"@),
        plain_name("mcp.json"@),
        plain_name(".cursor"@),
        plain_name(".codeium"@),
        plain_name("windsurf"@),
        plain_name("mcp_config.json"@),
{
    reveal_strlit("Code");
    reveal_strlit("User");
    reveal_strlit("mcp.json");
    reveal_strlit(".cursor");
    reveal_strlit(".codeium");
    reveal_strlit("windsurf");
    reveal_strlit("mcp_config.json");
    reveal_strlit(".");
    reveal_strlit("..");
    assert("Code"@.len() == 4);
    assert("User"@.len() == 4);
    assert("mcp.json"@.len() == 8);
    assert(".cursor"@.len() == 7);
    assert(".codeium"@.len() == 8);
    assert("windsurf"@.len() == 8);
    assert("mcp_config.json"@.len() == 15);
    assert("."@.len() == 1 && ".."@.len() == 2);
    assert(plain_name("Code"@));
    assert(plain_name("User"@));
    assert(plain_name("mcp.json"@));
    assert(plain_name(".cursor"@));
    assert(plain_name(".codeium"@));
    assert(plain_name("windsurf"@));
    assert(plain_name("mcp_config.json"@));
}

/// The names in the array, as they stand.
fn names_of(names: &[&str]) -> (r: Vec<String>)
    ensures
        text::texts(r@) == names@.map_values(|n: &str| n@),
{
    let ghost want = names@.map_values(|n: &str| n@);
    let mut out: Vec<String> = Vec::new();
    let mut i: usize = 0;
    while i < names.len()
        invariant
            i <= names@.len(),
            want == names@.map_values(|n: &str| n@),
            text::texts(out@) =~= want.take(i as int),
        decreases names@.len() - i,
    {
        let ghost before = out@;
        let name = names[i].to_owned();
        out.push(name);
        assert(text::texts(out@) =~= text::texts(before).push(name@));
        assert(want.take(i + 1) =~= want.take(i as int).push(want[i as int]));
        i = i + 1;
    }
    assert(want.take(want.len() as int) =~= want);
    out
}

/// The known clients and where each keeps its config.
pub fn known_clients() -> (r: Vec<ClientLocation>)
    ensures
        r@.map_values(|c: ClientLocation| c@) == known_locations(),
{
    proof {
        lemma_known_names();
    }
    let mut clients: Vec<ClientLocation> = Vec::new();
    let below = names_of(&["Code", "User", "mcp.json"]);
    assert(text::texts(below@) =~= seq!["Code"@, "User"@, "mcp.json"@]);
    clients.push(ClientLocation { client: "VS Code".to_owned(), base: Base::AppData, below });
    let below = names_of(&[".cursor", "mcp.json"]);
    assert(text::texts(below@) =~= seq![".cursor"@, "mcp.json"@]);
    clients.push(ClientLocation { client: "Cursor".to_owned(), base: Base::Home, below });
    let below = names_of(&[".codeium", "windsurf", "mcp_config.json"]);
    assert(text::texts(below@) =~= seq![".codeium"@, "windsurf"@, "mcp_config.json"@]);
    clients.push(ClientLocation { client: "Windsurf".to_owned(), base: Base::Home, below });
    assert(clients@.map_values(|c: ClientLocation| c@) =~= known_locations());
    clients
}

/// The application data directory of a platform.
pub open spec fn data_directory(
    platform: Platform,
    home: Seq<Seq<char>>,
    appdata: Option<Seq<Seq<char>>>,
) -> Option<Seq<Seq<char>>> {
    match platform {
        Platform::MacOs => Some(home + seq!["Library"@, "Application Support"@]),
        Platform::Windows => appdata,
        Platform::Unix => Some(home + seq![".config"@]),
    }
}

/// Where a client keeps its config: nowhere if that is below an application
/// data directory that is not known.
pub open spec fn location(
    client: LocationView,
    data: Option<Seq<Seq<char>>>,
    home: Seq<Seq<char>>,
) -> Option<(Seq<char>, Seq<Seq<char>>)> {
    match client.base {
        Base::AppData => match data {
            Some(base) => Some((client.client, base + client.below)),
            None => None,
        },
        Base::Home => Some((client.client, home + client.below)),
    }
}

/// Where the clients keep their configs, in the order of the clients.
pub open spec fn locations(
    clients: Seq<LocationView>,
    data: Option<Seq<Seq<char>>>,
    home: Seq<Seq<char>>,
) -> Seq<(Seq<char>, Seq<Seq<char>>)>
    decreases clients.len(),
{
    if clients.len() == 0 {
        Seq::empty()
    } else {
        let rest = locations(clients.drop_last(), data, home);
        match location(clients.last(), data, home) {
            Some(l) => rest.push(l),
            None => rest,
        }
    }
}

/// The views of a list of clients with their paths.
pub open spec fn located(paths: Seq<(String, std::path::PathBuf)>) -> Seq<
    (Seq<char>, Seq<Seq<char>>),
> {
    paths.map_values(|p: (String, std::path::PathBuf)| (p.0@, path_components(p.1)))
}

/// `std::path::PathBuf`; what it is made of is [`path_components`].
#[verifier::external_type_specification]
#[verifier::external_body]
pub struct ExPathBuf(std::path::PathBuf);

/// The components of a path, from the root on.
pub uninterp spec fn path_components(p: std::path::PathBuf) -> Seq<Seq<char>>;

/// `std::path::Path::join`: the path with one more component, where the name
/// is plain.
#[verifier::external_body]
fn join(base: &std::path::PathBuf, name: &str) -> (r: std::path::PathBuf)
    requires
        plain_name(name@),
    ensures
        path_components(r) == path_components(*base).push(name@),
{
    base.join(name)
}

/// `std::path::PathBuf::clone`: the same components.
#[verifier::external_body]
fn copy_path(path: &std::path::PathBuf) -> (r: std::path::PathBuf)
    ensures
        path_components(r) == path_components(*path),
{
    path.clone()
}

/// The names that occur in the data directories are plain.
proof fn lemma_plain_names()
    ensures
        plain_name("Library"@),
        plain_name("Application Support"@),
        plain_name(".config"@),
{
    reveal_strlit("Library");
    reveal_strlit("Application Support");
    reveal_strlit(".config");
    reveal_strlit(".");
    reveal_strlit("..");
    assert("Library"@.len() == 7 && "Application Support"@.len() == 19 && ".config"@.len() == 7);
    assert("."@.len() == 1 && ".."@.len() == 2);
    assert(plain_name("Library"@));
    assert(plain_name("Application Support"@));
    assert(plain_name(".config"@));
}

fn join_all(base: &std::path::PathBuf, below: &Vec<String>) -> (r: std::path::PathBuf)
    requires
        plain_names(text::texts(below@)),
    ensures
        path_components(r) == path_components(*base) + text::texts(below@),
{
    let ghost names = text::texts(below@);
    let mut path = copy_path(base);
    let mut i: usize = 0;
    assert(path_components(path) =~= path_components(*base) + names.take(0));
    while i < below.len()
        invariant
            i <= below.len(),
            names == text::texts(below@),
            plain_names(names),
            path_components(path) == path_components(*base) + names.take(i as int),
        decreases below.len() - i,
    {
        assert(names[i as int] == below@[i as int]@);
        path = join(&path, below[i].as_str());
        assert((path_components(*base) + names.take(i as int)).push(names[i as int])
            =~= path_components(*base) + names.take(i + 1));
        i = i + 1;
    }
    assert(names.take(names.len() as int) =~= names);
    path
}

/// The components of an optional path.
pub open spec fn components_option(p: Option<std::path::PathBuf>) -> Option<Seq<Seq<char>>> {
    match p {
        Some(p) => Some(path_components(p)),
        None => None,
    }
}

fn data_path(
    platform: Platform,
    home: &std::path::PathBuf,
    appdata: Option<&std::path::PathBuf>,
) -> (r: Option<std::path::PathBuf>)
    ensures
        components_option(r) == data_directory(
            platform,
            path_components(*home),
            match appdata {
                Some(p) => Some(path_components(*p)),
                None => None,
            },
        ),
{
    proof {
        lemma_plain_names();
    }
    let ghost at = path_components(*home);
    match platform {
        Platform::MacOs => {
            let support = join(&join(home, "Library"), "Application Support");
            assert(path_components(support) =~= at + seq!["Library"@, "Application Support"@]);
            Some(support)
        },
        Platform::Windows => match appdata {
            Some(appdata) => Some(copy_path(appdata)),
            None => None,
        },
        Platform::Unix => {
            let config = join(home, ".config");
            assert(path_components(config) =~= at + seq![".config"@]);
            Some(config)
        },
    }
}

/// Where the given clients keep their configs.
pub open spec fn candidates(
    clients: Seq<LocationView>,
    platform: Platform,
    home: Seq<Seq<char>>,
    appdata: Option<Seq<Seq<char>>>,
) -> Seq<(Seq<char>, Seq<Seq<char>>)> {
    locations(clients, data_directory(platform, home, appdata), home)
}

/// Where each of the given clients keeps its config on a platform, given the
/// user's home directory (and on Windows, `%APPDATA%`).
pub fn candidate_paths(
    clients: &Vec<ClientLocation>,
    platform: Platform,
    home: &std::path::PathBuf,
    appdata: Option<&std::path::PathBuf>,
) -> (r: Vec<(String, std::path::PathBuf)>)
    ensures
        located(r@) == candidates(
            clients@.map_values(|c: ClientLocation| c@),
            platform,
            path_components(*home),
            match appdata {
                Some(p) => Some(path_components(*p)),
                None => None,
            },
        ),
{
    let ghost views = clients@.map_values(|c: ClientLocation| c@);
    let ghost at = path_components(*home);
    let data = data_path(platform, home, appdata);
    let ghost base = components_option(data);
    let mut paths: Vec<(String, std::path::PathBuf)> = Vec::new();
    let mut i: usize = 0;
    assert(located(paths@) =~= locations(views.take(0), base, at));
    while i < clients.len()
        invariant
            i <= clients.len(),
            views == clients@.map_values(|c: ClientLocation| c@),
            at == path_components(*home),
            base == components_option(data),
            located(paths@) == locations(views.take(i as int), base, at),
        decreases clients.len() - i,
    {
        let client = &clients[i];
        proof {
            use_type_invariant(client);
        }
        let ghost now = views.take(i + 1);
        assert(now.drop_last() =~= views.take(i as int));
        assert(now.last() == client@);
        let ghost before = paths@;
        let path = match client.base {
            Base::Home => Some(join_all(home, &client.below)),
            Base::AppData => match &data {
                Some(dir) => Some(join_all(dir, &client.below)),
                None => None,
            },
        };
        match path {
            Some(path) => {
                let item = (client.client.clone(), path);
                paths.push(item);
                assert(located(paths@) =~= located(before).push(
                    (item.0@, path_components(item.1)),
                ));
            },
            None => {},
        }
        i = i + 1;
    }
    assert(views.take(views.len() as int) =~= views);
    paths
}

/// One entry never costs another: what a table yields is what its parts yield,
/// one after the other.
pub proof fn law_entries_are_independent(
    a: Seq<(Seq<char>, JsonView)>,
    b: Seq<(Seq<char>, JsonView)>,
)
    ensures
        table_result(a + b).servers == table_result(a).servers + table_result(b).servers,
        table_result(a + b).skipped == table_result(a).skipped + table_result(b).skipped,
    decreases b.len(),
{
    if b.len() == 0 {
        assert(a + b =~= a);
        assert(table_result(a).servers + table_result(b).servers =~= table_result(a).servers);
        assert(table_result(a).skipped + table_result(b).skipped =~= table_result(a).skipped);
    } else {
        let c = b.drop_last();
        law_entries_are_independent(a, c);
        assert((a + b).drop_last() =~= a + c);
        assert((a + b).last() == b.last());
        assert(table_result(a + b).servers =~= table_result(a).servers + table_result(b).servers);
        assert(table_result(a + b).skipped =~= table_result(a).skipped + table_result(b).skipped);
    }
}

/// Every entry is reported: it is either offered or skipped.
pub proof fn law_every_entry_is_reported(table: Seq<(Seq<char>, JsonView)>)
    ensures
        table_result(table).servers.len() + table_result(table).skipped.len() == table.len(),
    decreases table.len(),
{
    if table.len() > 0 {
        law_every_entry_is_reported(table.drop_last());
    }
}

/// Every variable is kept, under its name and with its text, in the part that
/// its classification says, and in no other.
pub proof fn law_variables_are_partitioned(vars: Seq<(Seq<char>, JsonView)>, i: int)
    requires
        json::names_ascend(vars),
        0 <= i < vars.len(),
    ensures
        ({
            let key = vars[i].0;
            let value = scalar_text(vars[i].1)->0;
            let secret = credential(key, value);
            &&& env_part(vars, secret).contains((key, value))
            &&& !strmap::has_key(env_part(vars, !secret), key)
        }),
        env_part(vars, true).len() + env_part(vars, false).len() == vars.len(),
    decreases vars.len(),
{
    let key = vars[i].0;
    let value = scalar_text(vars[i].1)->0;
    let secret = credential(key, value);
    let other = !secret;
    let rest = vars.drop_last();
    let last = vars.len() - 1;
    assert forall|a: int, b: int| 0 <= a < b < rest.len() implies text::text_lt(
        #[trigger] rest[a].0,
        #[trigger] rest[b].0,
    ) by {
        assert(vars[a] == rest[a] && vars[b] == rest[b]);
    }
    lemma_part_count(rest);
    lemma_part_keys(rest, other);
    assert(rest =~= vars.take(last));
    lemma_part_before(vars, last, secret);
    lemma_part_before(vars, last, other);
    if i < last {
        assert(rest[i] == vars[i]);
        law_variables_are_partitioned(rest, i);
        let part = env_part(rest, secret);
        let j = choose|j: int| 0 <= j < part.len() && part[j] == (key, value);
        assert(env_part(vars, secret)[j] == (key, value));
        if strmap::has_key(env_part(vars, other), key) {
            let k = choose|k: int|
                0 <= k < env_part(vars, other).len() && (#[trigger] env_part(vars, other)[k]).0
                    == key;
            if k < env_part(rest, other).len() {
                assert(env_part(rest, other)[k].0 == key);
                assert(strmap::has_key(env_part(rest, other), key));
            } else {
                assert(vars[last].0 == key);
                assert(text::text_lt(vars[i].0, vars[last].0));
                text::lemma_text_lt_irreflexive(key);
            }
        }
    } else {
        assert(env_part(vars, secret).last() == (key, value));
        if strmap::has_key(env_part(vars, other), key) {
            let k = choose|k: int|
                0 <= k < env_part(vars, other).len() && (#[trigger] env_part(vars, other)[k]).0
                    == key;
            assert(text::text_lt(env_part(rest, other)[k].0, vars[last].0));
            text::lemma_text_lt_irreflexive(key);
        }
    }
}

proof fn lemma_part_count(vars: Seq<(Seq<char>, JsonView)>)
    ensures
        env_part(vars, true).len() + env_part(vars, false).len() == vars.len(),
    decreases vars.len(),
{
    if vars.len() > 0 {
        lemma_part_count(vars.drop_last());
    }
}

/// Two variables that differ in nothing but the value of a credential.
pub open spec fn same_variable(a: (Seq<char>, JsonView), b: (Seq<char>, JsonView)) -> bool {
    &&& a.0 == b.0
    &&& scalar_text(a.1) == scalar_text(b.1) || {
        &&& scalar_text(a.1) is Some
        &&& scalar_text(b.1) is Some
        &&& credential(a.0, scalar_text(a.1)->0)
        &&& credential(b.0, scalar_text(b.1)->0)
    }
}

/// Two environments that differ in nothing but the values of credentials.
pub open spec fn same_but_secrets(
    a: Seq<(Seq<char>, JsonView)>,
    b: Seq<(Seq<char>, JsonView)>,
) -> bool {
    &&& a.len() == b.len()
    &&& forall|i: int|
        #![trigger a[i]]
        #![trigger b[i]]
        0 <= i < a.len() ==> same_variable(a[i], b[i])
}

proof fn lemma_same_but_secrets(a: Seq<(Seq<char>, JsonView)>, b: Seq<(Seq<char>, JsonView)>)
    requires
        same_but_secrets(a, b),
    ensures
        env_fault(a) == env_fault(b),
        env_part(a, false) == env_part(b, false),
        env_part(a, true).map_values(|e: (Seq<char>, Seq<char>)| e.0) == env_part(
            b,
            true,
        ).map_values(|e: (Seq<char>, Seq<char>)| e.0),
        placeholder_notes(a) == placeholder_notes(b),
    decreases a.len(),
{
    let f = |e: (Seq<char>, Seq<char>)| e.0;
    if a.len() == 0 {
        assert(a =~= b);
    } else {
        let x = a.drop_last();
        let y = b.drop_last();
        assert(same_but_secrets(x, y)) by {
            assert forall|i: int|
                #![trigger x[i]]
                #![trigger y[i]]
                0 <= i < x.len() implies same_variable(x[i], y[i]) by {
                assert(a[i] == x[i] && b[i] == y[i]);
            }
        }
        lemma_same_but_secrets(x, y);
        let n = a.len() - 1;
        let k = a[n].0;
        let u = scalar_text(a[n].1)->0;
        let v = scalar_text(b[n].1)->0;
        assert(a.last() == a[n] && b.last() == b[n]);
        assert(b[n].0 == k);
        assert(credential(k, u) == credential(k, v));
        assert(placeholder(u) == placeholder(v));
        if credential(k, u) {
            let p = env_part(x, true);
            let q = env_part(y, true);
            assert(p.push((k, u)).map_values(f) =~= p.map_values(f).push(k));
            assert(q.push((k, v)).map_values(f) =~= q.map_values(f).push(k));
        }
    }
}

/// Two `env` members that differ in nothing but the values of credentials.
pub open spec fn same_env(a: Option<JsonView>, b: Option<JsonView>) -> bool {
    a == b || {
        &&& a matches Some(JsonView::Object(x))
        &&& b matches Some(JsonView::Object(y))
        &&& same_but_secrets(x, y)
    }
}

/// Secret values never reach a preview: entries that differ in nothing but the
/// values of credentials are both accepted or both refused, and have the same
/// candidate.
pub proof fn law_preview_withholds_secrets(name: Seq<char>, a: JsonView, b: JsonView)
    requires
        entry_result(name, a) is Ok,
        forall|member: Seq<char>| member != "env"@ ==> #[trigger] a.get(member) == b.get(member),
        same_env(a.get("env"@), b.get("env"@)),
    ensures
        entry_result(name, b) is Ok,
        entry_result(name, a)->Ok_0.candidate == entry_result(name, b)->Ok_0.candidate,
{
    if a.get("env"@) != b.get("env"@) {
        lemma_same_but_secrets(
            a.get("env"@)->0->Object_0,
            b.get("env"@)->0->Object_0,
        );
    }
    reveal_strlit("env");
    reveal_strlit("command");
    reveal_strlit("args");
    reveal_strlit("cwd");
    reveal_strlit("envFile");
    reveal_strlit("url");
    reveal_strlit("type");
    reveal_strlit("transport");
    assert("env"@[0] == 'e' && "env"@.len() == 3);
    assert("command"@ != "env"@ && "args"@ != "env"@ && "cwd"@ != "env"@ && "envFile"@ != "env"@);
    assert("url"@[0] == 'u' && "type"@[0] == 't' && "transport"@[0] == 't');
    assert(a.get("command"@) == b.get("command"@));
    assert(a.get("args"@) == b.get("args"@));
    assert(a.get("cwd"@) == b.get("cwd"@));
    assert(a.get("envFile"@) == b.get("envFile"@));
    assert(a.get("url"@) == b.get("url"@));
    assert(a.get("type"@) == b.get("type"@));
    assert(a.get("transport"@) == b.get("transport"@));
}

/// A placeholder stays visible: it is kept as a plain value and noted.
pub proof fn law_placeholders_stay_visible(vars: Seq<(Seq<char>, JsonView)>, i: int)
    requires
        json::names_ascend(vars),
        0 <= i < vars.len(),
        placeholder(scalar_text(vars[i].1)->0),
    ensures
        env_part(vars, false).contains((vars[i].0, scalar_text(vars[i].1)->0)),
        placeholder_notes(vars).contains(placeholder_note(vars[i].0)),
{
    law_variables_are_partitioned(vars, i);
    lemma_noted(vars, i);
}

proof fn lemma_noted(vars: Seq<(Seq<char>, JsonView)>, i: int)
    requires
        0 <= i < vars.len(),
        placeholder(scalar_text(vars[i].1)->0),
    ensures
        placeholder_notes(vars).contains(placeholder_note(vars[i].0)),
    decreases vars.len(),
{
    let rest = vars.drop_last();
    let note = placeholder_note(vars[i].0);
    if i < rest.len() {
        assert(rest[i] == vars[i]);
        lemma_noted(rest, i);
        let notes = placeholder_notes(rest);
        let j = choose|j: int| 0 <= j < notes.len() && notes[j] == note;
        assert(placeholder_notes(vars)[j] == note);
    } else {
        assert(placeholder_notes(vars).last() == note);
    }
}

/// There is one first free name.
pub proof fn law_unique_name_is_determined(
    a: Seq<char>,
    b: Seq<char>,
    base: Seq<char>,
    taken: Set<Seq<char>>,
)
    requires
        is_unique_name(a, base, taken),
        is_unique_name(b, base, taken),
    ensures
        a == b,
{
    if taken.contains(base) {
        let m = choose|n: int|
            n >= 2 && a == #[trigger] suffixed(base, n) && !taken.contains(a) && forall|k: int|
                2 <= k < n ==> taken.contains(#[trigger] suffixed(base, k));
        let n = choose|n: int|
            n >= 2 && b == #[trigger] suffixed(base, n) && !taken.contains(b) && forall|k: int|
                2 <= k < n ==> taken.contains(#[trigger] suffixed(base, k));
        if m < n {
            assert(taken.contains(suffixed(base, m)));
        } else if n < m {
            assert(taken.contains(suffixed(base, n)));
        }
    }
}

proof fn lemma_every_client_has_a_place(
    clients: Seq<LocationView>,
    data: Seq<Seq<char>>,
    home: Seq<Seq<char>>,
)
    ensures
        locations(clients, Some(data), home).map_values(|l: (Seq<char>, Seq<Seq<char>>)| l.0)
            == clients.map_values(|c: LocationView| c.client),
    decreases clients.len(),
{
    let f = |l: (Seq<char>, Seq<Seq<char>>)| l.0;
    let g = |c: LocationView| c.client;
    if clients.len() == 0 {
        assert(locations(clients, Some(data), home).map_values(f) =~= clients.map_values(g));
    } else {
        let rest = clients.drop_last();
        lemma_every_client_has_a_place(rest, data, home);
        let l = location(clients.last(), Some(data), home)->0;
        let head = locations(rest, Some(data), home);
        assert(head.push(l).map_values(f) =~= head.map_values(f).push(l.0));
        assert(clients.map_values(g) =~= rest.map_values(g).push(clients.last().client));
    }
}

/// Every platform offers every client, once each and in the given order, where
/// the data directory is known.
pub proof fn law_every_platform_offers_every_client(
    clients: Seq<LocationView>,
    platform: Platform,
    home: Seq<Seq<char>>,
    appdata: Option<Seq<Seq<char>>>,
)
    requires
        platform == Platform::Windows ==> appdata is Some,
    ensures
        candidates(clients, platform, home, appdata).map_values(
            |l: (Seq<char>, Seq<Seq<char>>)| l.0,
        ) == clients.map_values(|c: LocationView| c.client),
{
    lemma_every_client_has_a_place(clients, data_directory(platform, home, appdata)->0, home);
}

proof fn lemma_places_lie_below(
    clients: Seq<LocationView>,
    data: Seq<Seq<char>>,
    home: Seq<Seq<char>>,
)
    requires
        home.is_prefix_of(data),
    ensures
        forall|i: int|
            0 <= i < locations(clients, Some(data), home).len() ==> home.is_prefix_of(
                (#[trigger] locations(clients, Some(data), home)[i]).1,
            ),
    decreases clients.len(),
{
    if clients.len() > 0 {
        let rest = clients.drop_last();
        lemma_places_lie_below(rest, data, home);
        let below = clients.last().below;
        assert((data + below).subrange(0, home.len() as int) =~= data.subrange(
            0,
            home.len() as int,
        ));
        assert((home + below).subrange(0, home.len() as int) =~= home);
        let all = locations(clients, Some(data), home);
        assert forall|i: int| 0 <= i < all.len() implies home.is_prefix_of((#[trigger] all[i]).1) by {
            if i < locations(rest, Some(data), home).len() {
                assert(all[i] == locations(rest, Some(data), home)[i]);
            }
        }
    }
}

/// Everywhere but on Windows every config lies below the home directory, and
/// `%APPDATA%` plays no part.
pub proof fn law_configs_lie_below_home(
    clients: Seq<LocationView>,
    platform: Platform,
    home: Seq<Seq<char>>,
    appdata: Option<Seq<Seq<char>>>,
)
    requires
        platform != Platform::Windows,
    ensures
        candidates(clients, platform, home, appdata) == candidates(clients, platform, home, None),
        forall|i: int|
            0 <= i < candidates(clients, platform, home, appdata).len() ==> home.is_prefix_of(
                (#[trigger] candidates(clients, platform, home, appdata)[i]).1,
            ),
{
    let data = data_directory(platform, home, appdata)->0;
    assert(data.subrange(0, home.len() as int) =~= home);
    lemma_places_lie_below(clients, data, home);
}

/// A config file that was found and could be read, with what it offers.
#[derive(Debug, PartialEq)]
pub struct DiscoveredConfig {
    /// Which client this file belongs to, for display.
    pub client: String,
    pub path: String,
    pub servers: Vec<ImportCandidate>,
    pub skipped: Vec<SkippedEntry>,
}

#[verifier::ext_equal]
pub struct DiscoveredView {
    pub client: Seq<char>,
    pub path: Seq<char>,
    pub servers: Seq<CandidateView>,
    pub skipped: Seq<SkippedView>,
}

impl View for DiscoveredConfig {
    type V = DiscoveredView;

    open spec fn view(&self) -> DiscoveredView {
        DiscoveredView {
            client: self.client@,
            path: self.path@,
            servers: self.servers@.map_values(|c: ImportCandidate| c@),
            skipped: self.skipped@.map_values(|s: SkippedEntry| s@),
        }
    }
}

/// What a file offers: its candidates, with those flagged whose name is taken,
/// and what it holds besides.
pub open spec fn offered(
    client: Seq<char>,
    path: Seq<char>,
    config: ConfigView,
    existing: Set<Seq<char>>,
) -> DiscoveredView {
    DiscoveredView {
        client,
        path,
        servers: config.servers.map_values(
            |s: ParsedView|
                CandidateView { conflicts: existing.contains(s.candidate.name), ..s.candidate },
        ),
        skipped: config.skipped,
    }
}

fn offer(client: String, path: String, parsed: ParsedConfig, existing: &NameSet) -> (r:
    DiscoveredConfig)
    ensures
        r@ == offered(client@, path@, parsed@, existing@),
{
    let mut servers = parsed.candidates();
    let ghost before = servers@;
    mark_conflicts(&mut servers, existing);
    let ghost marked = servers@;
    let r = DiscoveredConfig { client, path, servers, skipped: parsed.skipped };
    proof {
        let f = |c: ImportCandidate| c@;
        let want = offered(client@, path@, parsed@, existing@).servers;
        let kept = parsed@.servers.map_values(|s: ParsedView| s.candidate);
        assert(before.map_values(f) =~= kept);
        assert(before.len() == want.len());
        assert forall|i: int| 0 <= i < want.len() implies r@.servers[i] == want[i] by {
            assert(before.map_values(f)[i] == before[i]@);
            assert(kept[i] == parsed@.servers[i].candidate);
            assert(marked[i]@ == r@.servers[i]);
        }
        assert(r@.servers =~= want);
    }
    r
}

/// What reading one known location yielded: the client, the path, and the text
/// if the file was there and could be read.
pub struct ReadFile {
    pub client: String,
    pub path: String,
    pub text: Option<String>,
}

/// The text of a path for display.
pub uninterp spec fn path_text(p: std::path::PathBuf) -> Seq<char>;

/// `std::path::Path::display`: the path as a text, with replacement characters
/// where it is not Unicode.
#[verifier::external_body]
fn display(path: &std::path::PathBuf) -> (r: String)
    ensures
        r@ == path_text(*path),
{
    path.display().to_string()
}

/// The files at the candidate paths, each with what reading it yielded.
pub fn read_files(paths: Vec<(String, std::path::PathBuf)>, texts: Vec<Option<String>>) -> (r: Vec<
    ReadFile,
>)
    requires
        paths@.len() == texts@.len(),
    ensures
        r@.len() == paths@.len(),
        forall|i: int|
            0 <= i < r@.len() ==> (#[trigger] r@[i]).client == paths@[i].0 && r@[i].path@
                == path_text(paths@[i].1) && r@[i].text == texts@[i],
{
    let ghost all = paths@;
    let mut texts = texts;
    let ghost given = texts@;
    let mut paths = paths;
    let mut out: Vec<ReadFile> = Vec::new();
    while paths.len() > 0
        invariant
            paths@.len() == texts@.len(),
            all.len() == given.len(),
            out@.len() + paths@.len() == all.len(),
            paths@ == all.skip(out@.len() as int),
            texts@ == given.skip(out@.len() as int),
            forall|i: int|
                0 <= i < out@.len() ==> (#[trigger] out@[i]).client == all[i].0 && out@[i].path@
                    == path_text(all[i].1) && out@[i].text == given[i],
        decreases paths.len(),
    {
        let (client, path) = paths.remove(0);
        let text = texts.remove(0);
        let shown = display(&path);
        out.push(ReadFile { client, path: shown, text });
    }
    out
}

/// A config file with servers, or with entries worth explaining.
pub struct FoundConfig {
    pub client: String,
    pub path: String,
    pub parsed: ParsedConfig,
}

/// What a file offers to a sweep: nothing where it is absent, unreadable, not
/// an MCP config, or empty.
pub open spec fn found_in(text: Option<Seq<char>>) -> Option<ConfigView> {
    match text {
        Some(t) => match config_result(t) {
            Ok(c) => if c.servers.len() == 0 && c.skipped.len() == 0 {
                None
            } else {
                Some(c)
            },
            Err(_) => None,
        },
        None => None,
    }
}

/// What a sweep finds, in the order of the locations.
pub open spec fn scanned(files: Seq<ReadFile>) -> Seq<(Seq<char>, Seq<char>, ConfigView)>
    decreases files.len(),
{
    if files.len() == 0 {
        Seq::empty()
    } else {
        let rest = scanned(files.drop_last());
        let file = files.last();
        match found_in(text::text_option(file.text)) {
            Some(c) => rest.push((file.client@, file.path@, c)),
            None => rest,
        }
    }
}

/// The views of what was found.
pub open spec fn found_views(found: Seq<FoundConfig>) -> Seq<
    (Seq<char>, Seq<char>, ConfigView),
> {
    found.map_values(|f: FoundConfig| (f.client@, f.path@, f.parsed@))
}

/// Sort out what every known config location yielded. Discovery is a
/// best-effort sweep across other people's applications: a stray file without
/// servers is normal, not an error worth surfacing.
pub fn scan(files: Vec<ReadFile>) -> (r: Vec<FoundConfig>)
    ensures
        found_views(r@) == scanned(files@),
{
    let mut found: Vec<FoundConfig> = Vec::new();
    let ghost all = files@;
    assert(found_views(found@) =~= scanned(all.take(0)));
    for file in iter: files
        invariant
            iter.seq() == all,
            found_views(found@) == scanned(all.take(iter.index())),
    {
        let ghost now = all.take(iter.index() + 1);
        assert(all[iter.index()] == file);
        assert(now.drop_last() =~= all.take(iter.index()));
        assert(now.last() == file);
        match file.text {
            Some(text) => match parse_config(text.as_str()) {
                Ok(parsed) => {
                    if !parsed.is_empty() {
                        let ghost before = found@;
                        let item = FoundConfig { client: file.client, path: file.path, parsed };
                        found.push(item);
                        assert(found_views(found@) =~= found_views(before).push(
                            (item.client@, item.path@, item.parsed@),
                        ));
                    }
                },
                Err(_) => {},
            },
            None => {},
        }
    }
    assert(all.take(all.len() as int) =~= all);
    found
}

/// What a sweep offers, given the names that are taken.
pub fn discover(found: Vec<FoundConfig>, existing: &NameSet) -> (r: Vec<DiscoveredConfig>)
    ensures
        r@.map_values(|d: DiscoveredConfig| d@) == found_views(found@).map_values(
            |f: (Seq<char>, Seq<char>, ConfigView)| offered(f.0, f.1, f.2, existing@),
        ),
{
    let ghost want = found_views(found@).map_values(
        |f: (Seq<char>, Seq<char>, ConfigView)| offered(f.0, f.1, f.2, existing@),
    );
    let ghost view = |d: DiscoveredConfig| d@;
    let ghost all = found@;
    let mut out: Vec<DiscoveredConfig> = Vec::new();
    assert(out@.map_values(view) =~= want.take(0));
    for file in iter: found
        invariant
            iter.seq() == all,
            view == (|d: DiscoveredConfig| d@),
            want == found_views(all).map_values(
                |f: (Seq<char>, Seq<char>, ConfigView)| offered(f.0, f.1, f.2, existing@),
            ),
            out@.map_values(view) == want.take(iter.index()),
    {
        assert(all[iter.index()] == file);
        let ghost before = out@;
        let item = offer(file.client, file.path, file.parsed, existing);
        out.push(item);
        assert(want[iter.index()] == item@);
        assert(out@.map_values(view) =~= before.map_values(view).push(item@));
        assert(want.take(iter.index() + 1) =~= want.take(iter.index()).push(item@));
    }
    assert(want.take(want.len() as int) =~= want);
    out
}

/// What one file that the user named offers. Unlike in a sweep, every failure
/// is reported: they pointed at this path on purpose.
pub fn read_file(path: String, text: AppResult<String>, existing: &NameSet) -> (r: AppResult<
    DiscoveredConfig,
>)
    ensures
        match text {
            Err(e) => r == Err::<DiscoveredConfig, AppError>(e),
            Ok(t) => match config_result(t@) {
                Ok(config) => r is Ok && r->Ok_0@ == offered("file"@, path@, config, existing@),
                Err(e) => r is Err && r->Err_0@ == e,
            },
        },
{
    let text = match text {
        Ok(text) => text,
        Err(e) => {
            return Err(e);
        },
    };
    match parse_config(text.as_str()) {
        Ok(parsed) => Ok(offer("file".to_owned(), path, parsed, existing)),
        Err(e) => Err(e),
    }
}

/// What one import run did. Per-entry results, because a partial import is the
/// normal outcome.
#[derive(Debug, PartialEq)]
pub struct ImportOutcome {
    pub imported: Vec<ImportedServer>,
    pub failed: Vec<FailedImport>,
}

#[derive(Debug, PartialEq)]
pub struct ImportedServer {
    pub id: ServerId,
    /// The name it was created under, which may be suffixed to dodge a
    /// conflict.
    pub name: String,
    /// The name in the source file, so a rename can be shown honestly.
    pub source_name: String,
    pub secrets_stored: usize,
}

#[derive(Debug, PartialEq)]
pub struct FailedImport {
    pub name: String,
    pub reason: String,
}

#[verifier::ext_equal]
pub struct ImportedView {
    pub id: ServerId,
    pub name: Seq<char>,
    pub source_name: Seq<char>,
    pub secrets_stored: int,
}

impl View for ImportedServer {
    type V = ImportedView;

    open spec fn view(&self) -> ImportedView {
        ImportedView {
            id: self.id,
            name: self.name@,
            source_name: self.source_name@,
            secrets_stored: self.secrets_stored as int,
        }
    }
}

#[verifier::ext_equal]
pub struct FailedView {
    pub name: Seq<char>,
    pub reason: Seq<char>,
}

impl View for FailedImport {
    type V = FailedView;

    open spec fn view(&self) -> FailedView {
        FailedView { name: self.name@, reason: self.reason@ }
    }
}

/// The environment of an imported server: plain values as they are, and a
/// marker for each credential.
pub open spec fn imported_env(candidate: CandidateView) -> Map<Seq<char>, EnvView> {
    Map::new(
        |k: Seq<char>| candidate.secret_keys.contains(k) || strmap::has_key(candidate.env, k),
        |k: Seq<char>|
            if candidate.secret_keys.contains(k) {
                EnvView::Secret
            } else {
                EnvView::Plain { value: strmap::keyed(candidate.env)[k] }
            },
    )
}

/// The server that a candidate becomes under `name`. Importing never starts
/// processes on the user's behalf.
pub open spec fn imported_server(candidate: CandidateView, name: Seq<char>) -> ServerView {
    ServerView {
        name,
        command: candidate.command,
        args: candidate.args,
        env: imported_env(candidate),
        cwd: candidate.cwd,
        auto_start: false,
    }
}

fn new_server(candidate: &ImportCandidate, name: String) -> (r: NewServer)
    ensures
        r@ == imported_server(candidate@, name@),
{
    let ghost items = candidate.env.items();
    let ghost keys = text::texts(candidate.secret_keys@);
    let mut env: StrMap<EnvValue> = StrMap::new();
    let count: usize = candidate.env.len();
    let mut i: usize = 0;
    while i < count
        invariant
            i <= count,
            count == items.len(),
            items == candidate.env.items(),
            strmap::ascending(items),
            forall|k: Seq<char>| #[trigger]
                env@.contains_key(k) == strmap::has_key(items.take(i as int), k),
            forall|j: int|
                0 <= j < i ==> env@[(#[trigger] items[j]).0] == (EnvView::Plain {
                    value: items[j].1,
                }),
        decreases count - i,
    {
        let ghost before = env@;
        let key = candidate.env.key_at(i).to_owned();
        let value = candidate.env.value_at(i).clone();
        env.insert(key, EnvValue::Plain { value });
        proof {
            let now = items.take(i + 1);
            let prev = items.take(i as int);
            assert forall|k: Seq<char>| #[trigger] env@.contains_key(k) == strmap::has_key(
                now,
                k,
            ) by {
                if strmap::has_key(now, k) {
                    let j = choose|j: int| 0 <= j < now.len() && (#[trigger] now[j]).0 == k;
                    if j < i {
                        assert(prev[j].0 == k);
                        assert(before.contains_key(k));
                    }
                }
                if before.contains_key(k) {
                    let j = choose|j: int| 0 <= j < prev.len() && (#[trigger] prev[j]).0 == k;
                    assert(now[j].0 == k);
                }
                if k == key@ {
                    assert(now[i as int].0 == k);
                }
            }
            assert forall|j: int| 0 <= j < i + 1 implies env@[(#[trigger] items[j]).0] == (
            EnvView::Plain { value: items[j].1 }) by {
                if j < i {
                    assert(text::text_lt(items[j].0, items[i as int].0));
                    text::lemma_text_lt_irreflexive(key@);
                }
            }
        }
        i = i + 1;
    }
    let ghost plain = env@;
    let mut j: usize = 0;
    assert(items.take(items.len() as int) =~= items);
    while j < candidate.secret_keys.len()
        invariant
            j <= candidate.secret_keys.len(),
            keys == text::texts(candidate.secret_keys@),
            forall|k: Seq<char>| #[trigger]
                env@.contains_key(k) == (plain.contains_key(k) || keys.take(j as int).contains(k)),
            forall|k: Seq<char>|
                env@.contains_key(k) ==> #[trigger] env@[k] == if keys.take(j as int).contains(k) {
                    EnvView::Secret
                } else {
                    plain[k]
                },
        decreases candidate.secret_keys.len() - j,
    {
        let ghost before = env@;
        let ghost prev = keys.take(j as int);
        let ghost now = keys.take(j + 1);
        let key = candidate.secret_keys[j].clone();
        env.insert(key, EnvValue::Secret);
        proof {
            assert(keys[j as int] == key@);
            assert(now =~= prev.push(key@));
            assert forall|k: Seq<char>| now.contains(k) == (prev.contains(k) || k == key@) by {
                if prev.contains(k) {
                    let x = choose|x: int| 0 <= x < prev.len() && prev[x] == k;
                    assert(now[x] == k);
                }
                if k == key@ {
                    assert(now[j as int] == k);
                }
            }
            assert forall|k: Seq<char>| #[trigger] env@.contains_key(k) == (plain.contains_key(k)
                || now.contains(k)) by {
                assert(before.contains_key(k) == (plain.contains_key(k) || prev.contains(k)));
            }
            assert forall|k: Seq<char>| env@.contains_key(k) implies #[trigger] env@[k]
                == if now.contains(k) {
                EnvView::Secret
            } else {
                plain[k]
            } by {
                if k != key@ {
                    assert(before.contains_key(k));
                    assert(env@[k] == before[k]);
                }
            }
        }
        j = j + 1;
    }
    proof {
        assert(keys.take(keys.len() as int) =~= keys);
        strmap::lemma_keyed(items);
        assert forall|k: Seq<char>| #[trigger] imported_env(candidate@).contains_key(k)
            == env@.contains_key(k) by {
            assert(env@.contains_key(k) == (plain.contains_key(k) || keys.contains(k)));
        }
        assert forall|k: Seq<char>| #[trigger]
            env@.contains_key(k) implies imported_env(candidate@)[k] == env@[k] by {
            assert(env@[k] == if keys.contains(k) {
                EnvView::Secret
            } else {
                plain[k]
            });
            if !keys.contains(k) {
                assert(plain.contains_key(k));
                let x = choose|x: int| 0 <= x < items.len() && (#[trigger] items[x]).0 == k;
                assert(strmap::has_key(items, k));
                assert(items[x].0 == k);
            }
        }
        assert(env@ =~= imported_env(candidate@));
    }
    NewServer {
        name,
        command: candidate.command.clone(),
        args: copy_texts(&candidate.args),
        env,
        cwd: copy_option(&candidate.cwd),
        auto_start: false,
    }
}

/// A server that is being created, with the credentials that are to follow.
pub struct Adding {
    name: String,
    secrets: StrMap<String>,
}

/// A created server whose credentials are being stored.
pub struct Storing {
    id: ServerId,
    secrets: StrMap<String>,
    at: usize,
}

/// A created server that is being taken back, and why.
pub struct RollingBack {
    error: AppError,
}

/// What applying one entry does next.
pub enum ApplyStep {
    /// Put the value into the credential store, under this server and key.
    Store { storing: Storing, id: ServerId, key: String, value: String },
    /// Remove the server again, best-effort.
    Rollback { rolling: RollingBack, id: ServerId },
    /// How it ended: the id that the server was created under, or why it was
    /// not.
    Done(AppResult<ServerId>),
}

impl Adding {
    /// The name that the server is created under.
    pub closed spec fn created_as(self) -> Seq<char> {
        self.name@
    }

    /// The credentials that are to follow.
    pub closed spec fn credentials(self) -> Seq<(Seq<char>, Seq<char>)> {
        self.secrets.items()
    }

    /// The name that the server is created under.
    pub fn name(&self) -> (r: &str)
        ensures
            r@ == self.created_as(),
    {
        self.name.as_str()
    }

    /// The server was created, or not.
    pub fn added(self, reply: AppResult<ServerId>) -> (r: ApplyStep)
        ensures
            match reply {
                Ok(id) => next_credential(r, id, self.credentials(), 0),
                Err(e) => r == ApplyStep::Done(Err(e)),
            },
    {
        match reply {
            Ok(id) => store_next(Storing { id, secrets: self.secrets, at: 0 }),
            Err(e) => ApplyStep::Done(Err(e)),
        }
    }
}

impl Storing {
    pub closed spec fn server(self) -> ServerId {
        self.id
    }

    pub closed spec fn credentials(self) -> Seq<(Seq<char>, Seq<char>)> {
        self.secrets.items()
    }

    /// How many credentials are stored.
    pub closed spec fn done(self) -> int {
        self.at as int
    }

    /// A credential was stored, or not. All-or-nothing: a server whose secrets
    /// didn't land would fail every start, so a store failure takes the server
    /// back.
    pub fn stored(self, reply: AppResult<()>) -> (r: ApplyStep)
        requires
            self.done() < self.credentials().len(),
        ensures
            match reply {
                Ok(_) => next_credential(r, self.server(), self.credentials(), self.done() + 1),
                Err(e) => r is Rollback && r->Rollback_id == self.server()
                    && r->rolling.cause() == e,
            },
    {
        match reply {
            Ok(_) => {
                let _count: usize = self.secrets.len();
                store_next(Storing { id: self.id, secrets: self.secrets, at: self.at + 1 })
            },
            Err(error) => ApplyStep::Rollback { rolling: RollingBack { error }, id: self.id },
        }
    }
}

impl RollingBack {
    pub closed spec fn cause(self) -> AppError {
        self.error
    }

    /// The server is gone again, as far as possible: the failure that led here
    /// is the one to report.
    pub fn rolled_back(self) -> (r: ApplyStep)
        ensures
            r == ApplyStep::Done(Err(self.cause())),
    {
        ApplyStep::Done(Err(self.error))
    }
}

/// The credential that is due goes into the store, or everything is done.
pub open spec fn next_credential(
    step: ApplyStep,
    id: ServerId,
    credentials: Seq<(Seq<char>, Seq<char>)>,
    at: int,
) -> bool {
    if at < credentials.len() {
        &&& step is Store
        &&& step->Store_id == id
        &&& step->key@ == credentials[at].0
        &&& step->value@ == credentials[at].1
        &&& step->storing.server() == id
        &&& step->storing.credentials() == credentials
        &&& step->storing.done() == at
    } else {
        step == ApplyStep::Done(Ok::<ServerId, AppError>(id))
    }
}

fn store_next(storing: Storing) -> (r: ApplyStep)
    requires
        storing.done() <= storing.credentials().len(),
    ensures
        next_credential(r, storing.server(), storing.credentials(), storing.done()),
{
    let count: usize = storing.secrets.len();
    if storing.at < count {
        let key = storing.secrets.key_at(storing.at).to_owned();
        let value = storing.secrets.value_at(storing.at).clone();
        let id: ServerId = storing.id;
        ApplyStep::Store { storing, id, key, value }
    } else {
        ApplyStep::Done(Ok(storing.id))
    }
}

/// An import run over one file.
pub struct ImportRun {
    config: ParsedConfig,
    names: Vec<String>,
    next: usize,
    taken: NameSet,
    outcome: ImportOutcome,
}

/// The mathematical model of an [`ImportRun`].
#[verifier::ext_equal]
pub struct RunView {
    pub servers: Seq<ParsedView>,
    pub names: Seq<Seq<char>>,
    pub next: int,
    pub taken: Set<Seq<char>>,
    pub imported: Seq<ImportedView>,
    pub failed: Seq<FailedView>,
}

impl View for ImportRun {
    type V = RunView;

    closed spec fn view(&self) -> RunView {
        RunView {
            servers: self.config@.servers,
            names: text::texts(self.names@),
            next: self.next as int,
            taken: self.taken@,
            imported: self.outcome.imported@.map_values(|s: ImportedServer| s@),
            failed: self.outcome.failed@.map_values(|f: FailedImport| f@),
        }
    }
}

/// The server of a file that goes by `name`: the last one.
pub open spec fn find_server(servers: Seq<ParsedView>, name: Seq<char>) -> Option<ParsedView>
    decreases servers.len(),
{
    if servers.len() == 0 {
        None
    } else if servers.last().candidate.name == name {
        Some(servers.last())
    } else {
        find_server(servers.drop_last(), name)
    }
}

impl RunView {
    /// Every name so far is in one of the two lists, and imported servers have
    /// names of their own, none of which is free any more.
    pub open spec fn wf(self) -> bool {
        &&& 0 <= self.next <= self.names.len()
        &&& self.imported.len() + self.failed.len() == self.next
        &&& forall|i: int|
            0 <= i < self.imported.len() ==> self.taken.contains((#[trigger] self.imported[i]).name)
        &&& forall|i: int, j: int|
            0 <= i < j < self.imported.len() ==> (#[trigger] self.imported[i]).name != (
            #[trigger] self.imported[j]).name
    }

    /// A name that is no longer in the file is reported as failed.
    pub open spec fn skip(self) -> RunView {
        RunView {
            next: self.next + 1,
            failed: self.failed.push(
                FailedView {
                    name: self.names[self.next],
                    reason: "no longer present in this file"@,
                },
            ),
            ..self
        }
    }

    /// The names that are no longer in the file are passed over, up to one that
    /// is.
    pub open spec fn skip_missing(self) -> RunView
        decreases self.names.len() - self.next,
    {
        if 0 <= self.next < self.names.len() && find_server(
            self.servers,
            self.names[self.next],
        ) is None {
            self.skip().skip_missing()
        } else {
            self
        }
    }

    /// The entry that is due was imported under `name`, or not.
    pub open spec fn applied(self, name: Seq<char>, reply: Result<ServerId, ErrorView>) -> RunView {
        match reply {
            Ok(id) => RunView {
                next: self.next + 1,
                taken: self.taken.insert(name),
                imported: self.imported.push(
                    ImportedView {
                        id,
                        name,
                        source_name: self.names[self.next],
                        secrets_stored: find_server(
                            self.servers,
                            self.names[self.next],
                        )->0.secrets.len() as int,
                    },
                ),
                ..self
            },
            Err(e) => RunView {
                next: self.next + 1,
                failed: self.failed.push(
                    FailedView { name: self.names[self.next], reason: e.message() },
                ),
                ..self
            },
        }
    }
}

/// Begin an import run: the named servers of a file, given the names that are
/// taken. The file is read anew rather than trusting a preview.
pub fn import(config: ParsedConfig, names: Vec<String>, taken: NameSet) -> (r: ImportRun)
    ensures
        r@ == (RunView {
            servers: config@.servers,
            names: text::texts(names@),
            next: 0,
            taken: taken@,
            imported: Seq::empty(),
            failed: Seq::empty(),
        }),
        r@.wf(),
{
    let r = ImportRun {
        config,
        names,
        next: 0,
        taken,
        outcome: ImportOutcome { imported: Vec::new(), failed: Vec::new() },
    };
    assert(r@.imported =~= Seq::empty());
    assert(r@.failed =~= Seq::empty());
    r
}

impl ImportRun {
    fn position(&self, name: &str) -> (r: Option<usize>)
        ensures
            match r {
                Some(i) => i < self.config.servers@.len() && find_server(self@.servers, name@)
                    == Some(self.config.servers@[i as int]@),
                None => find_server(self@.servers, name@) is None,
            },
    {
        let ghost all = self@.servers;
        let mut n: usize = self.config.servers.len();
        assert(all.take(all.len() as int) =~= all);
        while n > 0
            invariant
                n <= self.config.servers@.len(),
                all == self@.servers,
                find_server(all, name@) == find_server(all.take(n as int), name@),
            decreases n,
        {
            assert(all.take(n as int).last() == self.config.servers@[n - 1]@);
            assert(all.take(n as int).drop_last() =~= all.take(n - 1));
            if same_text(self.config.servers[n - 1].candidate.name.as_str(), name) {
                return Some(n - 1);
            }
            n = n - 1;
        }
        None
    }

    /// The next entry to apply: what is to be created, under a name that is
    /// free. An entry that vanished since discovery is reported as failed
    /// rather than guessed at.
    pub fn next(&mut self) -> (r: Option<(Adding, NewServer)>)
        requires
            old(self)@.wf(),
        ensures
            final(self)@.wf(),
            final(self)@ == old(self)@.skip_missing(),
            match r {
                Some((adding, server)) => {
                    let run = final(self)@;
                    &&& run.next < run.names.len()
                    &&& find_server(run.servers, run.names[run.next]) matches Some(entry) && {
                        &&& is_unique_name(adding.created_as(), run.names[run.next], run.taken)
                        &&& !run.taken.contains(adding.created_as())
                        &&& adding.credentials() == entry.secrets
                        &&& server@ == imported_server(entry.candidate, adding.created_as())
                    }
                },
                None => final(self)@.next == final(self)@.names.len(),
            },
    {
        while self.next < self.names.len()
            invariant
                self@.wf(),
                self@.skip_missing() == old(self)@.skip_missing(),
            decreases self.names.len() - self.next,
        {
            let requested = self.names[self.next].clone();
            assert(self@.names[self@.next] == requested@);
            match self.position(requested.as_str()) {
                Some(i) => {
                    let name = unique_name(requested.as_str(), &self.taken);
                    let server = new_server(&self.config.servers[i].candidate, name.clone());
                    let secrets = self.config.servers[i].secrets.duplicate();
                    return Some((Adding { name, secrets }, server));
                },
                None => {
                    let ghost before = self@;
                    let failure = FailedImport {
                        name: requested,
                        reason: "no longer present in this file".to_owned(),
                    };
                    self.outcome.failed.push(failure);
                    self.next = self.next + 1;
                    assert(self@.failed =~= before.failed.push(failure@));
                    assert(self@ =~= before.skip());
                },
            }
        }
        None
    }

    /// The entry that was due was imported under `name`, the one that
    /// [`ImportRun::next`] gave it, or not. One failure does not abort the run.
    pub fn applied(&mut self, name: String, reply: AppResult<ServerId>)
        requires
            old(self)@.wf(),
            old(self)@.next < old(self)@.names.len(),
            find_server(old(self)@.servers, old(self)@.names[old(self)@.next]) is Some,
            is_unique_name(name@, old(self)@.names[old(self)@.next], old(self)@.taken),
        ensures
            final(self)@.wf(),
            final(self)@ == old(self)@.applied(
                name@,
                match reply {
                    Ok(id) => Ok(id),
                    Err(e) => Err(e@),
                },
            ),
    {
        let ghost before = self@;
        let _total: usize = self.names.len();
        let requested = self.names[self.next].clone();
        assert(self@.names[self@.next] == requested@);
        match reply {
            Ok(id) => {
                let secrets_stored: usize = match self.position(requested.as_str()) {
                    Some(i) => self.config.servers[i].secrets.len(),
                    None => 0,
                };
                self.taken.insert(name.clone());
                let server = ImportedServer { id, name, source_name: requested, secrets_stored };
                self.outcome.imported.push(server);
                assert(self@.imported =~= before.imported.push(server@));
            },
            Err(e) => {
                let failure = FailedImport { name: requested, reason: e.message() };
                self.outcome.failed.push(failure);
                assert(self@.failed =~= before.failed.push(failure@));
            },
        }
        self.next = self.next + 1;
        proof {
            let run = self@;
            assert forall|i: int| 0 <= i < run.imported.len() implies run.taken.contains(
                (#[trigger] run.imported[i]).name,
            ) by {
                if i < before.imported.len() {
                    assert(run.imported[i] == before.imported[i]);
                }
            }
            assert forall|i: int, j: int| 0 <= i < j < run.imported.len() implies (
            #[trigger] run.imported[i]).name != (#[trigger] run.imported[j]).name by {
                assert(run.imported[i] == before.imported[i]);
                if j < before.imported.len() {
                    assert(run.imported[j] == before.imported[j]);
                } else {
                    assert(before.taken.contains(before.imported[i].name));
                }
            }
        }
    }

    /// What the run did.
    pub fn finish(self) -> (r: ImportOutcome)
        ensures
            r.imported@.map_values(|s: ImportedServer| s@) == self@.imported,
            r.failed@.map_values(|f: FailedImport| f@) == self@.failed,
    {
        self.outcome
    }
}

/// Importing never arms a server to start on launch.
pub proof fn law_imported_servers_do_not_start(candidate: CandidateView, name: Seq<char>)
    ensures
        !imported_server(candidate, name).auto_start,
{
}

/// Credentials move into the keyring, not into the record: every credential of
/// an entry is a marker in the environment of the server it becomes.
pub proof fn law_credentials_become_markers(name: Seq<char>, entry: JsonView, i: int)
    requires
        entry_result(name, entry) is Ok,
        0 <= i < entry_result(name, entry)->Ok_0.secrets.len(),
    ensures
        ({
            let server = entry_result(name, entry)->Ok_0;
            let key = server.secrets[i].0;
            &&& imported_env(server.candidate).contains_key(key)
            &&& imported_env(server.candidate)[key] is Secret
        }),
{
    let server = entry_result(name, entry)->Ok_0;
    let keys = server.candidate.secret_keys;
    assert(keys[i] == server.secrets[i].0);
    assert(keys.contains(server.secrets[i].0));
}

/// A letter or a digit of ASCII.
pub open spec fn word_character(c: char) -> bool {
    ('0' <= c <= '9') || ('A' <= c <= 'Z') || ('a' <= c <= 'z')
}

/// `word` stands in `key` as a word of its own, in any case: neither a letter
/// nor a digit comes right before it or right behind it.
pub open spec fn has_word(key: Seq<char>, word: Seq<char>) -> bool {
    exists|from: int|
        0 <= from && from + word.len() <= key.len() && text::spelled(
            #[trigger] key.subrange(from, from + word.len()),
            word,
        ) && (from == 0 || !word_character(key[from - 1])) && (from + word.len() == key.len()
            || !word_character(key[from + word.len()]))
}

/// `key` has one of the words that tell a credential.
pub open spec fn tells_credential(key: Seq<char>) -> bool {
    ||| has_word(key, "KEY"@)
    ||| has_word(key, "KEYS"@)
    ||| has_word(key, "APIKEY"@)
    ||| has_word(key, "TOKEN"@)
    ||| has_word(key, "SECRET"@)
    ||| has_word(key, "PASSWORD"@)
    ||| has_word(key, "PASSWD"@)
    ||| has_word(key, "CREDENTIAL"@)
    ||| has_word(key, "CREDENTIALS"@)
    ||| has_word(key, "AUTH"@)
    ||| has_word(key, "PAT"@)
}

proof fn lemma_word_is_a_segment(key: Seq<char>, word: Seq<char>)
    requires
        forall|i: int| 0 <= i < word.len() ==> 'A' <= #[trigger] word[i] <= 'Z',
    ensures
        has_word(key, word) <==> exists|from: int, to: int| #[trigger]
            is_segment(key, from, to) && text::upper_seq(key.subrange(from, to)) == word,
{
    if has_word(key, word) {
        let from = choose|from: int|
            0 <= from && from + word.len() <= key.len() && text::spelled(
                #[trigger] key.subrange(from, from + word.len()),
                word,
            ) && (from == 0 || !word_character(key[from - 1])) && (from + word.len() == key.len()
                || !word_character(key[from + word.len()]));
        let to = from + word.len();
        let w = key.subrange(from, to);
        text::law_upper_case_tells_spellings(w, word);
        assert forall|i: int| from <= i < to implies text::spec_is_ascii_alphanumeric(
            #[trigger] key[i],
        ) by {
            assert(w[i - from] == key[i]);
            assert('A' <= word[i - from] <= 'Z');
        }
        assert(is_segment(key, from, to));
    }
    if exists|from: int, to: int| #[trigger]
        is_segment(key, from, to) && text::upper_seq(key.subrange(from, to)) == word {
        let (from, to) = choose|from: int, to: int| #[trigger]
            is_segment(key, from, to) && text::upper_seq(key.subrange(from, to)) == word;
        text::law_upper_case_tells_spellings(key.subrange(from, to), word);
        assert(to == from + word.len());
        assert(text::spelled(key.subrange(from, from + word.len()), word));
    }
}

/// A variable is told to be a credential by its name alone: exactly where one of
/// the telling words stands in it as a word of its own, in any case.
pub proof fn law_credentials_are_told_by_name(key: Seq<char>)
    ensures
        secret_key(key) <==> tells_credential(key),
{
    let words = secret_segments();
    reveal_strlit("KEY");
    reveal_strlit("KEYS");
    reveal_strlit("APIKEY");
    reveal_strlit("TOKEN");
    reveal_strlit("SECRET");
    reveal_strlit("PASSWORD");
    reveal_strlit("PASSWD");
    reveal_strlit("CREDENTIAL");
    reveal_strlit("CREDENTIALS");
    reveal_strlit("AUTH");
    reveal_strlit("PAT");
    assert forall|n: int| 0 <= n < words.len() implies has_word(key, #[trigger] words[n]) <==> (
    exists|from: int, to: int| #[trigger]
        is_segment(key, from, to) && text::upper_seq(key.subrange(from, to)) == words[n]) by {
        lemma_word_is_a_segment(key, words[n]);
    }
    assert(words[0] == "KEY"@ && words[1] == "KEYS"@ && words[2] == "APIKEY"@);
    assert(words[3] == "TOKEN"@ && words[4] == "SECRET"@ && words[5] == "PASSWORD"@);
    assert(words[6] == "PASSWD"@ && words[7] == "CREDENTIAL"@ && words[8] == "CREDENTIALS"@);
    assert(words[9] == "AUTH"@ && words[10] == "PAT"@);
    if secret_key(key) {
        let (from, to) = choose|from: int, to: int| #[trigger]
            is_segment(key, from, to) && words.contains(text::upper_seq(key.subrange(from, to)));
        let n = choose|n: int|
            0 <= n < words.len() && words[n] == text::upper_seq(key.subrange(from, to));
        assert(has_word(key, words[n]));
    }
    if tells_credential(key) {
        let n = choose|n: int| 0 <= n < words.len() && has_word(key, #[trigger] words[n]);
        assert(has_word(key, words[n]));
        let (from, to) = choose|from: int, to: int| #[trigger]
            is_segment(key, from, to) && text::upper_seq(key.subrange(from, to)) == words[n];
        assert(words.contains(text::upper_seq(key.subrange(from, to))));
    }
}

/// A text that holds no `${`.
pub open spec fn free_of_placeholders(value: Seq<char>) -> bool {
    forall|j: int| 0 <= j && j + 1 < value.len() ==> !(#[trigger] value[j] == '$' && value[j + 1]
        == '{')
}

/// Whatever its value is, as long as it is not empty and holds no `${`, a
/// variable whose name tells a credential is withheld with its very value, and
/// stands nowhere among the plain ones. Every other variable is plain, with its
/// very value, and stands nowhere among the credentials.
pub proof fn law_credentials_are_withheld_by_name(
    name: Seq<char>,
    entry: JsonView,
    vars: Seq<(Seq<char>, JsonView)>,
    i: int,
    value: Seq<char>,
)
    requires
        entry_result(name, entry) is Ok,
        entry.get("env"@) == Some(JsonView::Object(vars)),
        json::names_ascend(vars),
        0 <= i < vars.len(),
        scalar_text(vars[i].1) == Some(value),
    ensures
        ({
            let server = entry_result(name, entry)->Ok_0;
            let key = vars[i].0;
            if tells_credential(key) && value.len() > 0 && free_of_placeholders(value) {
                &&& server.candidate.secret_keys.contains(key)
                &&& server.secrets.contains((key, value))
                &&& forall|j: int|
                    0 <= j < server.candidate.env.len() ==> (#[trigger] server.candidate.env[j]).0
                        != key
            } else {
                &&& server.candidate.env.contains((key, value))
                &&& !server.candidate.secret_keys.contains(key)
                &&& forall|j: int|
                    0 <= j < server.secrets.len() ==> (#[trigger] server.secrets[j]).0 != key
            }
        }),
{
    let server = entry_result(name, entry)->Ok_0;
    let key = vars[i].0;
    law_credentials_are_told_by_name(key);
    law_variables_are_partitioned(vars, i);
    assert(placeholder(value) <==> !free_of_placeholders(value));
    let f = |e: (Seq<char>, Seq<char>)| e.0;
    let kept = env_part(vars, true);
    let plain = env_part(vars, false);
    assert(server.secrets == kept && server.candidate.env == plain);
    assert(server.candidate.secret_keys == kept.map_values(f));
    if credential(key, value) {
        let j = choose|j: int| 0 <= j < kept.len() && kept[j] == (key, value);
        assert(kept.map_values(f)[j] == key);
        assert(!strmap::has_key(plain, key));
    } else {
        assert(!strmap::has_key(kept, key));
        if kept.map_values(f).contains(key) {
            let j = choose|j: int| 0 <= j < kept.len() && kept.map_values(f)[j] == key;
            assert(kept[j].0 == key);
        }
    }
}

/// Nothing is invented: an entry has as many plain variables and credentials as
/// its file lists variables, and none where it lists none; the keys of the
/// credentials are those that are withheld, in their order.
pub proof fn law_no_variable_is_invented(name: Seq<char>, entry: JsonView)
    requires
        entry_result(name, entry) is Ok,
    ensures
        ({
            let server = entry_result(name, entry)->Ok_0;
            &&& entry.get("env"@) is None ==> server.candidate.env.len() == 0
                && server.secrets.len() == 0
            &&& entry.get("env"@) matches Some(JsonView::Object(vars)) ==> server.candidate.env.len()
                + server.secrets.len() == vars.len()
            &&& server.candidate.secret_keys.len() == server.secrets.len()
            &&& forall|j: int|
                0 <= j < server.secrets.len() ==> server.candidate.secret_keys[j] == (
                #[trigger] server.secrets[j]).0
        }),
{
    lemma_part_count(env_result(entry.get("env"@))->Ok_0);
}

/// Texts, numbers and truth values have a text, the very text, the number as it
/// is written and the word; nothing else has one.
pub proof fn law_scalars_have_their_text(
    s: Seq<char>,
    n: serde_json::Number,
    items: Seq<JsonView>,
    entries: Seq<(Seq<char>, JsonView)>,
)
    ensures
        scalar_text(JsonView::Str(s)) == Some(s),
        scalar_text(JsonView::Number(n)) == Some(json::number_text_of(n)),
        scalar_text(JsonView::Bool(true)) == Some("true"@),
        scalar_text(JsonView::Bool(false)) == Some("false"@),
        scalar_text(JsonView::Null) is None,
        scalar_text(JsonView::Array(items)) is None,
        scalar_text(JsonView::Object(entries)) is None,
{
}

/// A value with a text.
pub open spec fn scalar(j: JsonView) -> bool {
    j is Str || j is Number || j is Bool
}

/// A text with something in it besides white space.
pub open spec fn says_something(s: Seq<char>) -> bool {
    exists|i: int| 0 <= i < s.len() && !text::blank(#[trigger] s[i])
}

/// The transport that an entry names is none, no text, or stdio in any case; a
/// `"type"` goes before a `"transport"`.
pub open spec fn speaks_stdio(entry: JsonView) -> bool {
    let named = if entry.get("type"@) is Some {
        entry.get("type"@)
    } else {
        entry.get("transport"@)
    };
    named matches Some(JsonView::Str(t)) ==> text::spelled(t, "STDIO"@)
}

proof fn lemma_env_is_fine(vars: Seq<(Seq<char>, JsonView)>)
    ensures
        env_fault(vars) is None <==> forall|i: int|
            0 <= i < vars.len() ==> says_something((#[trigger] vars[i]).0) && scalar(vars[i].1),
    decreases vars.len(),
{
    if vars.len() > 0 {
        let rest = vars.drop_last();
        let n = vars.len() - 1;
        lemma_env_is_fine(rest);
        text::law_only_white_space_trims_to_nothing(vars[n].0);
        assert(vars.last() == vars[n]);
        assert(variable_fault(vars[n].0, vars[n].1) is None <==> says_something(vars[n].0)
            && scalar(vars[n].1));
        if env_fault(vars) is None {
            assert forall|i: int| 0 <= i < vars.len() implies says_something((#[trigger] vars[i]).0)
                && scalar(vars[i].1) by {
                if i < n {
                    assert(rest[i] == vars[i]);
                }
            }
        } else if forall|i: int|
            0 <= i < vars.len() ==> says_something((#[trigger] vars[i]).0) && scalar(vars[i].1) {
            assert forall|i: int| 0 <= i < rest.len() implies says_something((#[trigger] rest[i]).0)
                && scalar(rest[i].1) by {
                assert(rest[i] == vars[i]);
            }
            assert(says_something(vars[n].0) && scalar(vars[n].1));
        }
    }
}

proof fn lemma_speaks_stdio(entry: JsonView)
    ensures
        remote_fault(entry) is None <==> !(entry.get("url"@) matches Some(JsonView::Str(_)))
            && speaks_stdio(entry),
{
    reveal_strlit("STDIO");
    match transport_of(entry) {
        Some(t) => text::law_upper_case_tells_spellings(t, "STDIO"@),
        None => {},
    }
}

/// Exactly those entries can be imported that are objects, name no address and
/// no transport but stdio, have a command, and have arguments and variables that
/// are texts, numbers or truth values, each variable under a name.
pub proof fn law_what_can_be_imported(name: Seq<char>, entry: JsonView)
    ensures
        entry_result(name, entry) is Ok <==> {
            &&& entry is Object
            &&& !(entry.get("url"@) matches Some(JsonView::Str(_)))
            &&& speaks_stdio(entry)
            &&& entry.get("command"@) matches Some(JsonView::Str(c)) && says_something(c)
            &&& match entry.get("args"@) {
                None => true,
                Some(JsonView::Array(list)) => forall|i: int|
                    0 <= i < list.len() ==> scalar(#[trigger] list[i]),
                Some(_) => false,
            }
            &&& match entry.get("env"@) {
                None => true,
                Some(JsonView::Object(vars)) => forall|i: int|
                    0 <= i < vars.len() ==> says_something((#[trigger] vars[i]).0) && scalar(
                        vars[i].1,
                    ),
                Some(_) => false,
            }
        },
{
    lemma_speaks_stdio(entry);
    match entry.get("command"@) {
        Some(JsonView::Str(c)) => text::law_only_white_space_trims_to_nothing(c),
        _ => {},
    }
    match entry.get("args"@) {
        Some(JsonView::Array(list)) => {
            assert(all_scalar(list) <==> forall|i: int|
                0 <= i < list.len() ==> scalar(#[trigger] list[i])) by {
                if all_scalar(list) {
                    assert forall|i: int| 0 <= i < list.len() implies scalar(#[trigger] list[i]) by {
                        assert(scalar_text(list[i]) is Some);
                    }
                } else {
                    let i = choose|i: int| 0 <= i < list.len() && scalar_text(#[trigger] list[i]) is None;
                    assert(!scalar(list[i]));
                }
            }
        },
        _ => {},
    }
    match entry.get("env"@) {
        Some(JsonView::Object(vars)) => lemma_env_is_fine(vars),
        _ => {},
    }
}

/// What cannot be imported is reported with the reason: an address and a foreign
/// transport are named in it.
pub proof fn law_refusals_say_why(name: Seq<char>, entry: JsonView, what: Seq<char>)
    ensures
        !(entry is Object) ==> entry_result(name, entry) == Err::<ParsedView, Seq<char>>(
            "entry is not an object"@,
        ),
        entry is Object && entry.get("url"@) == Some(JsonView::Str(what)) ==> entry_result(
            name,
            entry,
        ) == Err::<ParsedView, Seq<char>>(
            "remote server ("@ + what + ") — MCPanel speaks stdio only"@,
        ),
        entry is Object && entry.get("url"@) is None && entry.get("type"@) == Some(
            JsonView::Str(what),
        ) && !text::spelled(what, "STDIO"@) ==> entry_result(name, entry) == Err::<
            ParsedView,
            Seq<char>,
        >(what + " transport — MCPanel speaks stdio only"@),
        entry is Object && entry.get("url"@) is None && entry.get("type"@) is None && entry.get(
            "transport"@,
        ) == Some(JsonView::Str(what)) && !text::spelled(what, "STDIO"@) ==> entry_result(
            name,
            entry,
        ) == Err::<ParsedView, Seq<char>>(what + " transport — MCPanel speaks stdio only"@),
        entry is Object && entry.get("url"@) is None && entry.get("type"@) is None && entry.get(
            "transport"@,
        ) is None ==> {
            let commanded = entry.get("command"@) matches Some(JsonView::Str(c)) && says_something(c);
            &&& !commanded ==> entry_result(name, entry) == Err::<ParsedView, Seq<char>>(
                "no command"@,
            )
            &&& commanded && (entry.get("args"@) matches Some(j) && !(j is Array)) ==> entry_result(
                name,
                entry,
            ) == Err::<ParsedView, Seq<char>>("\"args\" is not an array"@)
            &&& commanded && entry.get("args"@) is None && (entry.get("env"@) matches Some(j) && !(
            j is Object)) ==> entry_result(name, entry) == Err::<ParsedView, Seq<char>>(
                "\"env\" is not an object"@,
            )
        },
{
    reveal_strlit("STDIO");
    text::law_upper_case_tells_spellings(what, "STDIO"@);
    match entry.get("command"@) {
        Some(JsonView::Str(c)) => text::law_only_white_space_trims_to_nothing(c),
        _ => {},
    }
}

/// An imported entry keeps its name, its arguments in their order, and its
/// command and working directory without the white space around them; a
/// directory that is absent, no text or blank is none.
pub proof fn law_an_entry_keeps_what_it_says(
    name: Seq<char>,
    entry: JsonView,
    before: Seq<char>,
    between: Seq<char>,
    behind: Seq<char>,
    list: Seq<JsonView>,
    i: int,
)
    requires
        entry_result(name, entry) is Ok,
        forall|n: int| 0 <= n < before.len() ==> text::blank(#[trigger] before[n]),
        forall|n: int| 0 <= n < behind.len() ==> text::blank(#[trigger] behind[n]),
        between.len() > 0,
        !text::blank(between[0]),
        !text::blank(between.last()),
    ensures
        ({
            let c = entry_result(name, entry)->Ok_0.candidate;
            let padded = JsonView::Str(before + between + behind);
            &&& c.name == name
            &&& !c.conflicts
            &&& entry.get("command"@) == Some(padded) ==> c.command == between
            &&& entry.get("cwd"@) == Some(padded) ==> c.cwd == Some(between)
            &&& entry.get("cwd"@) == Some(JsonView::Str(before)) ==> c.cwd is None
            &&& entry.get("cwd"@) is None ==> c.cwd is None
            &&& (entry.get("cwd"@) matches Some(j) && !(j is Str)) ==> c.cwd is None
            &&& entry.get("args"@) is None ==> c.args.len() == 0
            &&& entry.get("args"@) == Some(JsonView::Array(list)) ==> c.args.len() == list.len()
            &&& entry.get("args"@) == Some(JsonView::Array(list)) && 0 <= i < list.len() ==> Some(
                c.args[i],
            ) == scalar_text(list[i])
        }),
{
    text::law_trimming_keeps_what_is_between(before, between, behind);
    if entry.get("args"@) == Some(JsonView::Array(list)) && 0 <= i < list.len() {
        assert(scalar_text(list[i]) is Some);
    }
}

/// A note tells of every variable that holds a placeholder and of an
/// environment file, and of nothing else.
pub proof fn law_notes_tell_of_what_is_left_to_do(
    name: Seq<char>,
    entry: JsonView,
    vars: Seq<(Seq<char>, JsonView)>,
    i: int,
)
    requires
        entry_result(name, entry) is Ok,
        entry.get("env"@) == Some(JsonView::Object(vars)),
        0 <= i < vars.len(),
    ensures
        ({
            let notes = entry_result(name, entry)->Ok_0.candidate.notes;
            &&& !free_of_placeholders(scalar_text(vars[i].1)->0) ==> notes.contains(
                vars[i].0 + " holds an unresolved placeholder — set its real value after importing"@,
            )
            &&& entry.get("envFile"@) is Some ==> notes.contains(
                "envFile is not supported — add those variables by hand"@,
            )
            &&& entry.get("envFile"@) is None && (forall|j: int|
                0 <= j < vars.len() ==> free_of_placeholders(
                    scalar_text((#[trigger] vars[j]).1)->0,
                )) ==> notes.len() == 0
        }),
{
    let notes = entry_result(name, entry)->Ok_0.candidate.notes;
    let value = scalar_text(vars[i].1)->0;
    let own = placeholder_notes(vars);
    if !free_of_placeholders(value) {
        assert(placeholder(value));
        lemma_noted(vars, i);
        let j = choose|j: int| 0 <= j < own.len() && own[j] == placeholder_note(vars[i].0);
        assert(notes[j] == own[j]);
    }
    if entry.get("envFile"@) is Some {
        assert(notes[own.len() as int] == "envFile is not supported — add those variables by hand"@);
    }
    if forall|j: int|
        0 <= j < vars.len() ==> free_of_placeholders(scalar_text((#[trigger] vars[j]).1)->0) {
        lemma_nothing_to_note(vars);
    }
}

proof fn lemma_nothing_to_note(vars: Seq<(Seq<char>, JsonView)>)
    requires
        forall|j: int|
            0 <= j < vars.len() ==> free_of_placeholders(scalar_text((#[trigger] vars[j]).1)->0),
    ensures
        placeholder_notes(vars).len() == 0,
    decreases vars.len(),
{
    if vars.len() > 0 {
        let rest = vars.drop_last();
        assert forall|j: int| 0 <= j < rest.len() implies free_of_placeholders(
            scalar_text((#[trigger] rest[j]).1)->0,
        ) by {
            assert(rest[j] == vars[j]);
        }
        lemma_nothing_to_note(rest);
        assert(vars.last() == vars[vars.len() - 1]);
        assert(!placeholder(scalar_text(vars.last().1)->0));
    }
}

/// The servers of a file are those of its `"mcpServers"` where that is an
/// object, or else those of its `"servers"`; a file with neither is refused.
pub proof fn law_the_servers_of_a_file(root: JsonView, table: Seq<(Seq<char>, JsonView)>)
    ensures
        root.get("mcpServers"@) == Some(JsonView::Object(table)) ==> root_result(root) == Ok::<
            ConfigView,
            ErrorView,
        >(table_result(table)),
        !(root.get("mcpServers"@) matches Some(JsonView::Object(_))) && root.get("servers"@)
            == Some(JsonView::Object(table)) ==> root_result(root) == Ok::<ConfigView, ErrorView>(
            table_result(table),
        ),
        !(root.get("mcpServers"@) matches Some(JsonView::Object(_))) && !(root.get(
            "servers"@,
        ) matches Some(JsonView::Object(_))) ==> root_result(root) is Err && root_result(
            root,
        )->Err_0 is InvalidInput,
{
}

/// An entry that can be imported is offered as it is, and no other is reported
/// for it; one that cannot is reported under its name with the reason, and one
/// without a name as unnamed.
pub proof fn law_an_entry_is_offered_or_reported(name: Seq<char>, entry: JsonView)
    ensures
        ({
            let r = table_result(seq![(name, entry)]);
            &&& says_something(name) ==> match entry_result(name, entry) {
                Ok(server) => r.servers == seq![server] && r.skipped.len() == 0,
                Err(why) => r.servers.len() == 0 && r.skipped == seq![
                    SkippedView { name, reason: why },
                ],
            }
            &&& !says_something(name) ==> r.servers.len() == 0 && r.skipped == seq![
                SkippedView { name: "(unnamed)"@, reason: "entry has an empty name"@ },
            ]
        }),
{
    let table = seq![(name, entry)];
    assert(table.drop_last() =~= Seq::empty());
    assert(table.last() == (name, entry));
    assert(table_result(table.drop_last()).servers =~= Seq::empty());
    assert(table_result(table.drop_last()).skipped =~= Seq::empty());
    text::law_only_white_space_trims_to_nothing(name);
    match named_result(name, entry) {
        Ok(server) => assert(table_result(table).servers =~= seq![server]),
        Err(why) => assert(table_result(table).skipped =~= seq![why]),
    }
}

/// An argument that is no text, number or truth value, and a variable like that
/// or without a name, is what the refusal of its entry tells of.
pub proof fn law_refusals_tell_the_faulty_value(
    name: Seq<char>,
    entry: JsonView,
    list: Seq<JsonView>,
    i: int,
    vars: Seq<(Seq<char>, JsonView)>,
)
    requires
        entry is Object,
        entry.get("url"@) is None,
        entry.get("type"@) is None,
        entry.get("transport"@) is None,
        entry.get("command"@) matches Some(JsonView::Str(c)) && says_something(c),
    ensures
        entry.get("args"@) == Some(JsonView::Array(list)) && 0 <= i < list.len() && !scalar(list[i])
            ==> entry_result(name, entry) == Err::<ParsedView, Seq<char>>(
            "\"args\" contains a non-scalar value"@,
        ),
        entry.get("args"@) is None && entry.get("env"@) == Some(JsonView::Object(vars)) && 0 <= i
            < vars.len() && (forall|j: int|
            0 <= j < i ==> says_something((#[trigger] vars[j]).0) && scalar(vars[j].1)) ==> {
            &&& !says_something(vars[i].0) ==> entry_result(name, entry) == Err::<
                ParsedView,
                Seq<char>,
            >("\"env\" has an empty variable name"@)
            &&& says_something(vars[i].0) && !scalar(vars[i].1) ==> entry_result(name, entry)
                == Err::<ParsedView, Seq<char>>("env "@ + vars[i].0 + " is not a string"@)
        },
{
    match entry.get("command"@) {
        Some(JsonView::Str(c)) => text::law_only_white_space_trims_to_nothing(c),
        _ => {},
    }
    if entry.get("args"@) == Some(JsonView::Array(list)) && 0 <= i < list.len() && !scalar(list[i]) {
        assert(scalar_text(list[i]) is None);
        assert(!all_scalar(list));
    }
    if entry.get("env"@) == Some(JsonView::Object(vars)) && 0 <= i < vars.len() && (forall|j: int|
        0 <= j < i ==> says_something((#[trigger] vars[j]).0) && scalar(vars[j].1)) {
        let head = vars.take(i);
        assert forall|j: int| 0 <= j < head.len() implies says_something((#[trigger] head[j]).0)
            && scalar(head[j].1) by {
            assert(head[j] == vars[j]);
        }
        lemma_env_is_fine(head);
        text::law_only_white_space_trims_to_nothing(vars[i].0);
        let upto = vars.take(i + 1);
        assert(upto.drop_last() =~= head);
        assert(upto.last() == vars[i]);
        assert(env_fault(upto) == variable_fault(vars[i].0, vars[i].1));
        if env_fault(upto) is Some {
            lemma_first_fault_stays(vars, i + 1);
        }
    }
}

proof fn lemma_first_fault_stays(vars: Seq<(Seq<char>, JsonView)>, n: int)
    requires
        0 <= n <= vars.len(),
        env_fault(vars.take(n)) is Some,
    ensures
        env_fault(vars) == env_fault(vars.take(n)),
    decreases vars.len(),
{
    if n == vars.len() {
        assert(vars.take(n) =~= vars);
    } else {
        let rest = vars.drop_last();
        assert(rest.take(n) =~= vars.take(n));
        lemma_first_fault_stays(rest, n);
    }
}

/// A server is imported under its own name where that is free; otherwise under
/// the name with the lowest number behind it, from 2 on, that is free. Either
/// way nobody has the name yet.
pub proof fn law_a_free_name_is_found(name: Seq<char>, base: Seq<char>, taken: Set<Seq<char>>, n: int)
    ensures
        is_unique_name(name, base, taken) ==> !taken.contains(name),
        !taken.contains(base) ==> (is_unique_name(name, base, taken) <==> name == base),
        taken.contains(base) && n >= 2 && name == base + " ("@ + text::decimal(n) + ")"@
            && !taken.contains(name) && (forall|m: int|
            2 <= m < n ==> taken.contains(base + " ("@ + #[trigger] text::decimal(m) + ")"@))
            ==> is_unique_name(name, base, taken),
        taken.contains(base) && n >= 2 && !taken.contains(
            base + " ("@ + text::decimal(n) + ")"@,
        ) && is_unique_name(name, base, taken) ==> exists|m: int|
            2 <= m <= n && name == base + " ("@ + #[trigger] text::decimal(m) + ")"@,
{
    if taken.contains(base) && n >= 2 && name == base + " ("@ + text::decimal(n) + ")"@
        && !taken.contains(name) && (forall|m: int|
        2 <= m < n ==> taken.contains(base + " ("@ + #[trigger] text::decimal(m) + ")"@)) {
        assert(name == suffixed(base, n));
        assert forall|m: int| 2 <= m < n implies taken.contains(#[trigger] suffixed(base, m)) by {
            assert(suffixed(base, m) == base + " ("@ + text::decimal(m) + ")"@);
        }
    }
    if taken.contains(base) && n >= 2 && !taken.contains(
        base + " ("@ + text::decimal(n) + ")"@,
    ) && is_unique_name(name, base, taken) {
        let k = choose|k: int|
            k >= 2 && name == #[trigger] suffixed(base, k) && !taken.contains(name) && forall|
                m: int,
            |
                2 <= m < k ==> taken.contains(#[trigger] suffixed(base, m));
        assert(suffixed(base, n) == base + " ("@ + text::decimal(n) + ")"@);
        if n < k {
            assert(taken.contains(suffixed(base, n)));
        }
        assert(name == base + " ("@ + text::decimal(k) + ")"@);
    }
}

/// Every plain variable of a candidate is in the environment of the server that
/// it becomes, as a plain value with the very same text, where its name is not
/// one of the candidate's credentials; every credential is a marker there; and
/// there is nothing else.
pub proof fn law_variables_are_imported_as_they_are(
    candidate: CandidateView,
    name: Seq<char>,
    i: int,
    key: Seq<char>,
)
    requires
        strmap::ascending(candidate.env),
    ensures
        ({
            let env = imported_server(candidate, name).env;
            &&& 0 <= i < candidate.env.len() && !candidate.secret_keys.contains(candidate.env[i].0)
                ==> env.contains_key(candidate.env[i].0) && env[candidate.env[i].0] == (
            EnvView::Plain { value: candidate.env[i].1 })
            &&& candidate.secret_keys.contains(key) ==> env.contains_key(key) && env[key]
                == EnvView::Secret
            &&& env.contains_key(key) ==> candidate.secret_keys.contains(key) || exists|j: int|
                0 <= j < candidate.env.len() && (#[trigger] candidate.env[j]).0 == key
        }),
{
    strmap::lemma_keyed(candidate.env);
    if 0 <= i < candidate.env.len() {
        assert(strmap::has_key(candidate.env, candidate.env[i].0));
    }
}

/// The server that a candidate becomes has the name that was found for it, and
/// the command, the arguments and the directory of the candidate.
pub proof fn law_an_import_keeps_the_command(candidate: CandidateView, name: Seq<char>)
    ensures
        imported_server(candidate, name).name == name,
        imported_server(candidate, name).command == candidate.command,
        imported_server(candidate, name).args == candidate.args,
        imported_server(candidate, name).cwd == candidate.cwd,
{
}

/// What an entry says comes through to the server it becomes: a plain variable
/// of the file is in its environment with the very text, and a credential is a
/// marker there whose value is handed to the store under the same key.
pub proof fn law_an_entry_comes_through(
    name: Seq<char>,
    entry: JsonView,
    vars: Seq<(Seq<char>, JsonView)>,
    i: int,
    value: Seq<char>,
    given: Seq<char>,
)
    requires
        entry_result(name, entry) is Ok,
        entry.get("env"@) == Some(JsonView::Object(vars)),
        json::names_ascend(vars),
        0 <= i < vars.len(),
        scalar_text(vars[i].1) == Some(value),
    ensures
        ({
            let server = entry_result(name, entry)->Ok_0;
            let env = imported_server(server.candidate, given).env;
            let key = vars[i].0;
            &&& env.contains_key(key)
            &&& if tells_credential(key) && value.len() > 0 && free_of_placeholders(value) {
                env[key] == EnvView::Secret && server.secrets.contains((key, value))
            } else {
                env[key] == (EnvView::Plain { value })
            }
        }),
{
    let server = entry_result(name, entry)->Ok_0;
    let c = server.candidate;
    let key = vars[i].0;
    law_credentials_are_withheld_by_name(name, entry, vars, i, value);
    lemma_part_ascends(vars, false);
    if !(tells_credential(key) && value.len() > 0 && free_of_placeholders(value)) {
        let j = choose|j: int| 0 <= j < c.env.len() && c.env[j] == (key, value);
        law_variables_are_imported_as_they_are(c, given, j, key);
    } else {
        law_variables_are_imported_as_they_are(c, given, 0, key);
    }
}

proof fn lemma_part_ascends(vars: Seq<(Seq<char>, JsonView)>, secret: bool)
    requires
        json::names_ascend(vars),
    ensures
        strmap::ascending(env_part(vars, secret)),
    decreases vars.len(),
{
    if vars.len() > 0 {
        let rest = vars.drop_last();
        let last = vars.len() - 1;
        assert forall|a: int, b: int| 0 <= a < b < rest.len() implies text::text_lt(
            #[trigger] rest[a].0,
            #[trigger] rest[b].0,
        ) by {
            assert(vars[a] == rest[a] && vars[b] == rest[b]);
        }
        lemma_part_ascends(rest, secret);
        assert(rest =~= vars.take(last));
        lemma_part_before(vars, last, secret);
        let part = env_part(vars, secret);
        assert forall|a: int, b: int| 0 <= a < b < part.len() implies text::text_lt(
            #[trigger] part[a].0,
            #[trigger] part[b].0,
        ) by {
            let head = env_part(rest, secret);
            assert(part[a] == head[a]);
            if b < head.len() {
                assert(part[b] == head[b]);
            } else {
                assert(part[b].0 == vars[last].0);
                assert(text::text_lt(head[a].0, vars[last].0));
            }
        }
    }
}

/// The server that is meant by a name has that name and is in the file, and no
/// later one has it; where none is meant, none has it.
pub proof fn law_servers_are_found_by_name(servers: Seq<ParsedView>, name: Seq<char>)
    ensures
        match find_server(servers, name) {
            Some(found) => exists|i: int|
                0 <= i < servers.len() && #[trigger] servers[i] == found && found.candidate.name
                    == name && forall|j: int|
                    i < j < servers.len() ==> (#[trigger] servers[j]).candidate.name != name,
            None => forall|i: int|
                0 <= i < servers.len() ==> (#[trigger] servers[i]).candidate.name != name,
        },
    decreases servers.len(),
{
    if servers.len() > 0 {
        let rest = servers.drop_last();
        let last = servers.len() - 1;
        law_servers_are_found_by_name(rest, name);
        if servers[last].candidate.name == name {
            assert(servers[last] == find_server(servers, name)->0);
        } else {
            match find_server(rest, name) {
                Some(found) => {
                    let i = choose|i: int|
                        0 <= i < rest.len() && #[trigger] rest[i] == found && found.candidate.name
                            == name && forall|j: int|
                            i < j < rest.len() ==> (#[trigger] rest[j]).candidate.name != name;
                    assert(servers[i] == found);
                    assert forall|j: int| i < j < servers.len() implies (
                    #[trigger] servers[j]).candidate.name != name by {
                        if j < last {
                            assert(rest[j] == servers[j]);
                        }
                    }
                },
                None => {
                    assert forall|i: int| 0 <= i < servers.len() implies (
                    #[trigger] servers[i]).candidate.name != name by {
                        if i < last {
                            assert(rest[i] == servers[i]);
                        }
                    }
                },
            }
        }
    }
}

/// Names that the file no longer has are passed over, each reported as failed in
/// its turn, up to the first that it has; nothing else changes.
pub proof fn law_vanished_names_are_reported(run: RunView, j: int)
    requires
        0 <= run.next <= run.names.len(),
    ensures
        ({
            let after = run.skip_missing();
            &&& run.next <= after.next <= run.names.len()
            &&& after.names == run.names && after.servers == run.servers
            &&& after.taken == run.taken && after.imported == run.imported
            &&& after.failed.len() == run.failed.len() + after.next - run.next
            &&& after.next < run.names.len() ==> exists|i: int|
                0 <= i < run.servers.len() && (#[trigger] run.servers[i]).candidate.name
                    == run.names[after.next]
            &&& run.next <= j < after.next ==> {
                &&& after.failed[run.failed.len() + j - run.next] == (FailedView {
                    name: run.names[j],
                    reason: "no longer present in this file"@,
                })
                &&& forall|i: int|
                    0 <= i < run.servers.len() ==> (#[trigger] run.servers[i]).candidate.name
                        != run.names[j]
            }
            &&& 0 <= j < run.failed.len() ==> after.failed[j] == run.failed[j]
        }),
    decreases run.names.len() - run.next,
{
    if run.next < run.names.len() {
        law_servers_are_found_by_name(run.servers, run.names[run.next]);
        if find_server(run.servers, run.names[run.next]) is None {
            let then = run.skip();
            law_vanished_names_are_reported(then, j);
            if j == run.next {
                law_vanished_names_are_reported(then, run.failed.len() as int);
                assert(then.failed[run.failed.len() as int].name == run.names[j]);
            }
        }
    }
}

/// A server that was created is reported under the name it got and the name it
/// had, with the number of its credentials, and its name is taken from then on;
/// one that failed is reported with the reason and takes no name. Either way the
/// next one is due, and what was reported before stands.
pub proof fn law_every_import_is_reported(
    run: RunView,
    name: Seq<char>,
    id: ServerId,
    why: ErrorView,
    entry: ParsedView,
)
    requires
        0 <= run.next < run.names.len(),
        find_server(run.servers, run.names[run.next]) == Some(entry),
    ensures
        ({
            let good = run.applied(name, Ok(id));
            let bad = run.applied(name, Err(why));
            &&& good.imported.len() == run.imported.len() + 1
            &&& good.imported.drop_last() == run.imported
            &&& good.imported.last().id == id
            &&& good.imported.last().name == name
            &&& good.imported.last().source_name == run.names[run.next]
            &&& good.imported.last().secrets_stored == entry.secrets.len()
            &&& good.failed == run.failed
            &&& forall|other: Seq<char>| #[trigger]
                good.taken.contains(other) <==> (other == name || run.taken.contains(other))
            &&& bad.failed.len() == run.failed.len() + 1
            &&& bad.failed.drop_last() == run.failed
            &&& bad.failed.last().name == run.names[run.next]
            &&& bad.failed.last().reason == why.message()
            &&& bad.imported == run.imported
            &&& bad.taken == run.taken
            &&& good.next == run.next + 1 && bad.next == run.next + 1
            &&& good.names == run.names && bad.names == run.names
            &&& good.servers == run.servers && bad.servers == run.servers
        }),
{
    let good = run.applied(name, Ok(id));
    let bad = run.applied(name, Err(why));
    assert(good.imported.drop_last() =~= run.imported);
    assert(bad.failed.drop_last() =~= run.failed);
}

/// The credentials of a created server go into the store one after the other,
/// each under the server, its own key and with its own value; when all are in,
/// the import is done under the server's id.
pub proof fn law_every_credential_is_stored(
    step: ApplyStep,
    id: ServerId,
    credentials: Seq<(Seq<char>, Seq<char>)>,
    at: int,
)
    requires
        0 <= at <= credentials.len(),
        next_credential(step, id, credentials, at),
    ensures
        at == credentials.len() <==> step is Done,
        step is Done ==> step == ApplyStep::Done(Ok::<ServerId, AppError>(id)),
        at < credentials.len() ==> step is Store && step->Store_id == id && (
            step->key@,
            step->value@,
        ) == credentials[at] && step->storing.server() == id && step->storing.credentials()
            == credentials && step->storing.done() == at,
{
}

/// A sweep takes the files one by one, in their order: a file that was not
/// there, could not be parsed, is no config, or lists nothing is passed over,
/// and any other is found under its client and path with all that it lists.
pub proof fn law_a_sweep_finds_what_is_there(
    files: Seq<ReadFile>,
    more: Seq<ReadFile>,
    file: ReadFile,
    root: JsonView,
)
    ensures
        scanned(files + more) == scanned(files) + scanned(more),
        file.text is None ==> scanned(seq![file]).len() == 0,
        file.text matches Some(t) ==> {
            &&& json::json_text(t@) is Err ==> scanned(seq![file]).len() == 0
            &&& json::json_text(t@) == Ok::<JsonView, Seq<char>>(root) ==> match root_result(root) {
                Err(_) => scanned(seq![file]).len() == 0,
                Ok(c) => if c.servers.len() + c.skipped.len() > 0 {
                    scanned(seq![file]) == seq![(file.client@, file.path@, c)]
                } else {
                    scanned(seq![file]).len() == 0
                },
            }
        },
    decreases more.len(),
{
    let one = seq![file];
    assert(one.drop_last() =~= Seq::empty());
    assert(one.last() == file);
    assert(scanned(one.drop_last()) =~= Seq::empty());
    match found_in(text::text_option(file.text)) {
        Some(c) => assert(scanned(one) =~= seq![(file.client@, file.path@, c)]),
        None => {},
    }
    if more.len() == 0 {
        assert(files + more =~= files);
        assert(scanned(files) + scanned(more) =~= scanned(files));
    } else {
        let rest = more.drop_last();
        law_a_sweep_finds_what_is_there(files, rest, file, root);
        assert((files + more).drop_last() =~= files + rest);
        assert((files + more).last() == more.last());
        assert(scanned(files + more) =~= scanned(files) + scanned(more));
    }
}

/// An offer shows every server of the file in its order, unchanged but for the
/// flag, which is up exactly where somebody already has the name.
pub proof fn law_offers_flag_taken_names(
    client: Seq<char>,
    path: Seq<char>,
    config: ConfigView,
    existing: Set<Seq<char>>,
    i: int,
)
    requires
        0 <= i < config.servers.len(),
    ensures
        ({
            let r = offered(client, path, config, existing);
            let was = config.servers[i].candidate;
            &&& r.client == client && r.path == path && r.skipped == config.skipped
            &&& r.servers.len() == config.servers.len()
            &&& r.servers[i].conflicts <==> existing.contains(was.name)
            &&& r.servers[i].name == was.name && r.servers[i].command == was.command
            &&& r.servers[i].args == was.args && r.servers[i].cwd == was.cwd
            &&& r.servers[i].env == was.env && r.servers[i].secret_keys == was.secret_keys
            &&& r.servers[i].notes == was.notes
        }),
{
}

/// Where the known clients keep their configs on each platform, below whatever
/// home and data directory there is.
pub proof fn law_known_clients_have_their_places(
    home: Seq<Seq<char>>,
    data: Seq<Seq<char>>,
    any: Option<Seq<Seq<char>>>,
)
    ensures
        candidates(known_locations(), Platform::Unix, home, any) == seq![
            ("VS Code"@, home + seq![".config"@, "Code"@, "User"@, "mcp.json"@]),
            ("Cursor"@, home + seq![".cursor"@, "mcp.json"@]),
            ("Windsurf"@, home + seq![".codeium"@, "windsurf"@, "mcp_config.json"@]),
        ],
        candidates(known_locations(), Platform::MacOs, home, any) == seq![
            (
                "VS Code"@,
                home + seq![
                    "Library"@,
                    "Application Support"@,
                    "Code"@,
                    "User"@,
                    "mcp.json"@,
                ],
            ),
            ("Cursor"@, home + seq![".cursor"@, "mcp.json"@]),
            ("Windsurf"@, home + seq![".codeium"@, "windsurf"@, "mcp_config.json"@]),
        ],
        candidates(known_locations(), Platform::Windows, home, Some(data)) == seq![
            ("VS Code"@, data + seq!["Code"@, "User"@, "mcp.json"@]),
            ("Cursor"@, home + seq![".cursor"@, "mcp.json"@]),
            ("Windsurf"@, home + seq![".codeium"@, "windsurf"@, "mcp_config.json"@]),
        ],
        candidates(known_locations(), Platform::Windows, home, None) == seq![
            ("Cursor"@, home + seq![".cursor"@, "mcp.json"@]),
            ("Windsurf"@, home + seq![".codeium"@, "windsurf"@, "mcp_config.json"@]),
        ],
{
    let clients = known_locations();
    assert(clients.drop_last() =~= clients.take(2));
    assert(clients.take(2).drop_last() =~= clients.take(1));
    assert(clients.take(1).drop_last() =~= Seq::empty());
    reveal_with_fuel(locations, 4);
    assert(home + seq![".config"@] + seq!["Code"@, "User"@, "mcp.json"@] =~= home + seq![
        ".config"@,
        "Code"@,
        "User"@,
        "mcp.json"@,
    ]);
    assert(home + seq!["Library"@, "Application Support"@] + seq!["Code"@, "User"@, "mcp.json"@]
        =~= home + seq!["Library"@, "Application Support"@, "Code"@, "User"@, "mcp.json"@]);
}

/// A client's place is below the directory it starts from, under its own names;
/// a client whose directory is not known has none, and costs no other its place.
pub proof fn law_a_client_has_one_place(
    clients: Seq<LocationView>,
    client: LocationView,
    platform: Platform,
    home: Seq<Seq<char>>,
    appdata: Option<Seq<Seq<char>>>,
)
    ensures
        ({
            let before = candidates(clients, platform, home, appdata);
            let after = candidates(clients.push(client), platform, home, appdata);
            &&& client.base is Home ==> after == before.push((client.client, home + client.below))
            &&& client.base is AppData && platform is Windows ==> match appdata {
                Some(data) => after == before.push((client.client, data + client.below)),
                None => after == before,
            }
            &&& client.base is AppData && platform is Unix ==> after == before.push(
                (client.client, home + seq![".config"@] + client.below),
            )
            &&& client.base is AppData && platform is MacOs ==> after == before.push(
                (
                    client.client,
                    home + seq!["Library"@, "Application Support"@] + client.below,
                ),
            )
        }),
{
    assert(clients.push(client).drop_last() =~= clients);
}

/// The preview of a candidate shows what the candidate holds, each under its own
/// name.
pub proof fn law_previews_show_the_candidate(c: CandidateView)
    ensures
        candidate_json(c).get("name"@) == Some(JsonView::Str(c.name)),
        candidate_json(c).get("command"@) == Some(JsonView::Str(c.command)),
        candidate_json(c).get("args"@) matches Some(JsonView::Array(a)) && a.len() == c.args.len()
            && forall|i: int| 0 <= i < a.len() ==> #[trigger] a[i] == JsonView::Str(c.args[i]),
        c.cwd matches Some(path) ==> candidate_json(c).get("cwd"@) == Some(JsonView::Str(path)),
        c.cwd is None ==> candidate_json(c).get("cwd"@) == Some(JsonView::Null),
        candidate_json(c).get("conflicts"@) == Some(JsonView::Bool(c.conflicts)),
        candidate_json(c).get("env"@) matches Some(JsonView::Object(e)) && e.len() == c.env.len()
            && forall|i: int|
            0 <= i < e.len() ==> #[trigger] e[i] == (c.env[i].0, JsonView::Str(c.env[i].1)),
        candidate_json(c).get("secret_keys"@) matches Some(JsonView::Array(a)) && a.len()
            == c.secret_keys.len() && forall|i: int|
            0 <= i < a.len() ==> #[trigger] a[i] == JsonView::Str(c.secret_keys[i]),
        candidate_json(c).get("notes"@) matches Some(JsonView::Array(a)) && a.len() == c.notes.len()
            && forall|i: int| 0 <= i < a.len() ==> #[trigger] a[i] == JsonView::Str(c.notes[i]),
        candidate_json(c)->Object_0.len() == 8,
{
    lemma_candidate_names(c);
    let m = candidate_json(c)->Object_0;
    json::lemma_ascending_names_differ(m);
    assert(m[0].0 == "args"@ && m[1].0 == "command"@ && m[2].0 == "conflicts"@);
    assert(m[3].0 == "cwd"@ && m[4].0 == "env"@ && m[5].0 == "name"@);
    assert(m[6].0 == "notes"@ && m[7].0 == "secret_keys"@);
    json::law_members_are_found_by_name(m, "args"@);
    json::law_members_are_found_by_name(m, "command"@);
    json::law_members_are_found_by_name(m, "conflicts"@);
    json::law_members_are_found_by_name(m, "cwd"@);
    json::law_members_are_found_by_name(m, "env"@);
    json::law_members_are_found_by_name(m, "name"@);
    json::law_members_are_found_by_name(m, "notes"@);
    json::law_members_are_found_by_name(m, "secret_keys"@);
}

/// A candidate, and what is held back of it, is seen field by field: all
/// arguments, keys and notes in order, and the variables as they are listed.
pub proof fn law_candidates_are_seen_as_they_are(s: ParsedServer, i: int)
    ensures
        ({
            let c = s.candidate;
            let v = s@.candidate;
            &&& v.name == c.name@ && v.command == c.command@ && v.conflicts == c.conflicts
            &&& v.args.len() == c.args@.len() && (0 <= i < c.args@.len() ==> v.args[i]
                == c.args@[i]@)
            &&& v.secret_keys.len() == c.secret_keys@.len() && (0 <= i < c.secret_keys@.len()
                ==> v.secret_keys[i] == c.secret_keys@[i]@)
            &&& v.notes.len() == c.notes@.len() && (0 <= i < c.notes@.len() ==> v.notes[i]
                == c.notes@[i]@)
            &&& c.cwd matches Some(path) ==> v.cwd == Some(path@)
            &&& c.cwd is None ==> v.cwd is None
            &&& v.env == c.env.items()
            &&& s@.secrets == s.secrets.items()
        }),
{
}

/// A config is seen with all its servers and all its skipped entries, in order.
pub proof fn law_configs_are_seen_whole(c: ParsedConfig, i: int)
    ensures
        c@.servers.len() == c.servers@.len(),
        0 <= i < c.servers@.len() ==> c@.servers[i] == c.servers@[i]@,
        c@.skipped.len() == c.skipped@.len(),
        0 <= i < c.skipped@.len() ==> c@.skipped[i].name == c.skipped@[i].name@
            && c@.skipped[i].reason == c.skipped@[i].reason@,
{
}

/// What the next import creates is what the file says under the requested name:
/// the command, the arguments and the directory of that entry, under a name that
/// nobody has, and the credentials that follow are those that are withheld of
/// it.
pub proof fn law_the_next_import_is_the_requested_entry(
    run: &mut ImportRun,
    adding: Adding,
    server: NewServer,
    i: int,
)
    requires
        old(run)@.wf(),
        call_ensures(ImportRun::next, (run,), Some((adding, server))),
    ensures
        ({
            let now = final(run)@;
            let wanted = now.names[now.next];
            exists|n: int|
                0 <= n < now.servers.len() && {
                    let entry = #[trigger] now.servers[n];
                    &&& entry.candidate.name == wanted
                    &&& server.command@ == entry.candidate.command
                    &&& text::texts(server.args@) == entry.candidate.args
                    &&& text::text_option(server.cwd) == entry.candidate.cwd
                    &&& adding.credentials() == entry.secrets
                    &&& 0 <= i < entry.secrets.len() && entry.candidate.secret_keys.contains(
                        entry.secrets[i].0,
                    ) ==> server.env@.contains_key(entry.secrets[i].0)
                        && server.env@[entry.secrets[i].0] == EnvView::Secret
                    &&& strmap::ascending(entry.candidate.env) && 0 <= i
                        < entry.candidate.env.len() && !entry.candidate.secret_keys.contains(
                        entry.candidate.env[i].0,
                    ) ==> server.env@.contains_key(entry.candidate.env[i].0)
                        && server.env@[entry.candidate.env[i].0] == (EnvView::Plain {
                        value: entry.candidate.env[i].1,
                    })
                }
        }),
        server.name@ == adding.created_as(),
        !final(run)@.taken.contains(server.name@),
        !final(run)@.taken.contains(final(run)@.names[final(run)@.next]) ==> server.name@
            == final(run)@.names[final(run)@.next],
        !server.auto_start,
{
    let now = final(run)@;
    let wanted = now.names[now.next];
    law_servers_are_found_by_name(now.servers, wanted);
    let entry = find_server(now.servers, wanted)->0;
    let n = choose|n: int|
        0 <= n < now.servers.len() && #[trigger] now.servers[n] == entry && entry.candidate.name
            == wanted && forall|j: int|
            n < j < now.servers.len() ==> (#[trigger] now.servers[j]).candidate.name != wanted;
    assert(server@.env == server.env@);
    assert(server@.args == text::texts(server.args@));
    if strmap::ascending(entry.candidate.env) {
        law_variables_are_imported_as_they_are(
            entry.candidate,
            server.name@,
            i,
            entry.secrets[i].0,
        );
    }
    assert(now.servers[n] == entry);
}

/// A created server gets its credentials one after the other, each handed to the
/// store under its own key with its own value; where the store refuses one, the
/// server is taken back, and that refusal is what is reported.
pub proof fn law_all_or_nothing(
    adding: Adding,
    id: ServerId,
    first: ApplyStep,
    e: AppError,
    refused: ApplyStep,
    storing: Storing,
    next: ApplyStep,
    stuck: ApplyStep,
    rolling: RollingBack,
    end: ApplyStep,
)
    requires
        call_ensures(Adding::added, (adding, Ok(id)), first),
        call_ensures(Adding::added, (adding, Err(e)), refused),
        0 <= storing.done() < storing.credentials().len(),
        call_ensures(Storing::stored, (storing, Ok(())), next),
        call_ensures(Storing::stored, (storing, Err(e)), stuck),
        rolling.cause() == e,
        call_ensures(RollingBack::rolled_back, (rolling,), end),
    ensures
        adding.credentials().len() > 0 ==> first is Store && first->Store_id == id && (
            first->key@,
            first->value@,
        ) == adding.credentials()[0] && first->storing.done() == 0
            && first->storing.credentials() == adding.credentials(),
        adding.credentials().len() == 0 ==> first == ApplyStep::Done(Ok::<ServerId, AppError>(id)),
        refused == ApplyStep::Done(Err::<ServerId, AppError>(e)),
        storing.done() + 1 < storing.credentials().len() ==> next is Store && next->Store_id
            == storing.server() && (next->key@, next->value@)
            == storing.credentials()[storing.done() + 1] && next->storing.done() == storing.done()
            + 1,
        storing.done() + 1 == storing.credentials().len() ==> next == ApplyStep::Done(
            Ok::<ServerId, AppError>(storing.server()),
        ),
        stuck is Rollback && stuck->Rollback_id == storing.server() && stuck->rolling.cause() == e,
        end == ApplyStep::Done(Err::<ServerId, AppError>(e)),
{
}

/// A file that the user names is offered under its path, as what it holds; what
/// is wrong with it is reported as it is.
pub proof fn law_a_named_file_is_offered(
    path: String,
    text: String,
    existing: NameSet,
    r: AppResult<DiscoveredConfig>,
    e: AppError,
    unread: AppResult<DiscoveredConfig>,
)
    requires
        call_ensures(read_file, (path, Ok(text), &existing), r),
        call_ensures(read_file, (path, Err(e), &existing), unread),
    ensures
        unread == Err::<DiscoveredConfig, AppError>(e),
        json::json_text(text@) matches Err(m) ==> (r matches Err(x) && x@ == ErrorView::Json(m)),
        json::json_text(text@) matches Ok(root) ==> match root_result(root) {
            Ok(config) => r matches Ok(d) && d.path@ == path@ && d.client@ == "file"@
                && d.servers@.len() == config.servers.len() && d@.skipped == config.skipped,
            Err(x) => r matches Err(y) && y@ == x,
        },
{
    if json::json_text(text@) is Ok && root_result(json::json_text(text@)->Ok_0) is Ok {
        let d = r->Ok_0;
        assert(d@.servers.len() == d.servers@.len());
    }
}

/// What was read at each place is paired with the client and the path of that
/// place, in the order of the places.
pub proof fn law_files_are_read_where_they_lie(
    paths: Vec<(String, std::path::PathBuf)>,
    texts: Vec<Option<String>>,
    r: Vec<ReadFile>,
    i: int,
)
    requires
        paths@.len() == texts@.len(),
        call_ensures(read_files, (paths, texts), r),
    ensures
        r@.len() == paths@.len(),
        0 <= i < r@.len() ==> r@[i].client@ == paths@[i].0@ && r@[i].path@ == path_text(
            paths@[i].1,
        ) && r@[i].text == texts@[i],
{
}

/// A name is flagged exactly where it is taken, for every candidate, and nothing
/// else of a candidate changes.
pub proof fn law_every_conflict_is_flagged(
    candidates: &mut Vec<ImportCandidate>,
    existing: NameSet,
    i: int,
)
    requires
        call_ensures(mark_conflicts, (candidates, &existing), ()),
        0 <= i < old(candidates)@.len(),
    ensures
        final(candidates)@.len() == old(candidates)@.len(),
        final(candidates)@[i].conflicts <==> existing@.contains(old(candidates)@[i].name@),
        final(candidates)@[i].name@ == old(candidates)@[i].name@,
        final(candidates)@[i].command@ == old(candidates)@[i].command@,
        text::texts(final(candidates)@[i].args@) == text::texts(old(candidates)@[i].args@),
        final(candidates)@[i].env.items() == old(candidates)@[i].env.items(),
        text::texts(final(candidates)@[i].secret_keys@) == text::texts(
            old(candidates)@[i].secret_keys@,
        ),
{
    let was = old(candidates)@[i]@;
    let now = final(candidates)@[i]@;
    assert(now == CandidateView { conflicts: existing@.contains(was.name), ..was });
    assert(now.name == was.name && now.env == was.env);
}

/// A run begins with the first requested name, all of them in their order, the
/// names that are taken, and nothing reported yet.
pub proof fn law_a_run_begins_at_the_first_name(
    config: ParsedConfig,
    names: Vec<String>,
    taken: NameSet,
    r: ImportRun,
    i: int,
)
    requires
        call_ensures(import, (config, names, taken), r),
    ensures
        r@.next == 0,
        r@.names.len() == names@.len(),
        0 <= i < names@.len() ==> r@.names[i] == names@[i]@,
        r@.servers == config@.servers,
        r@.taken == taken@,
        r@.imported.len() == 0 && r@.failed.len() == 0,
{
}

/// What a run did is what it reports in the end.
pub proof fn law_a_run_reports_what_it_did(run: ImportRun, r: ImportOutcome, i: int)
    requires
        call_ensures(ImportRun::finish, (run,), r),
    ensures
        r.imported@.len() == run@.imported.len(),
        0 <= i < r.imported@.len() ==> r.imported@[i]@ == run@.imported[i],
        r.failed@.len() == run@.failed.len(),
        0 <= i < r.failed@.len() ==> r.failed@[i]@ == run@.failed[i],
{
    let f = |s: ImportedServer| s@;
    let g = |s: FailedImport| s@;
    assert(r.imported@.map_values(f).len() == r.imported@.len());
    assert(r.failed@.map_values(g).len() == r.failed@.len());
    if 0 <= i < r.imported@.len() {
        assert(r.imported@.map_values(f)[i] == r.imported@[i]@);
    }
    if 0 <= i < r.failed@.len() {
        assert(r.failed@.map_values(g)[i] == r.failed@[i]@);
    }
}

/// A client's names are plain: one component of a path each, and no way up or
/// out.
pub proof fn law_plain_names_stay_below(name: Seq<char>)
    ensures
        plain_name(name) <==> name.len() > 0 && !name.contains('/') && !name.contains('\\')
            && !name.contains(':') && name != seq!['.'] && name != seq!['.', '.'],
{
    reveal_strlit(".");
    reveal_strlit("..");
    assert("."@ =~= seq!['.']);
    assert(".."@ =~= seq!['.', '.']);
    if name.len() > 0 && !name.contains('/') && !name.contains('\\') && !name.contains(':') {
        assert forall|i: int| 0 <= i < name.len() implies #[trigger] name[i] != '/' && name[i]
            != '\\' && name[i] != ':' by {
            assert(name.contains(name[i]));
        }
    }
}

/// The text of a file is parsed, and what it parses to is what is imported from;
/// a text that does not parse is refused in the words of the parser.
pub proof fn law_a_config_is_what_its_text_parses_to(text: &str, r: AppResult<ParsedConfig>)
    requires
        call_ensures(parse_config, (text,), r),
    ensures
        json::json_text(text@) matches Err(m) ==> (r matches Err(e) && e@ == ErrorView::Json(m)),
        json::json_text(text@) matches Ok(root) ==> match root_result(root) {
            Ok(c) => r matches Ok(config) && config@ == c,
            Err(x) => r matches Err(e) && e@ == x,
        },
{
}

/// Every config that was found is offered, in the order in which it was found,
/// under its client and its path.
pub proof fn law_every_find_is_offered(
    found: Vec<FoundConfig>,
    existing: NameSet,
    r: Vec<DiscoveredConfig>,
    i: int,
)
    requires
        call_ensures(discover, (found, &existing), r),
    ensures
        r@.len() == found@.len(),
        0 <= i < r@.len() ==> r@[i].client@ == found@[i].client@ && r@[i].path@ == found@[i].path@
            && r@[i].servers@.len() == found@[i].parsed.servers@.len() && r@[i].skipped@.len()
            == found@[i].parsed.skipped@.len(),
{
    let f = |d: DiscoveredConfig| d@;
    let g = |c: (Seq<char>, Seq<char>, ConfigView)| offered(c.0, c.1, c.2, existing@);
    let views = found_views(found@);
    assert(r@.map_values(f) == views.map_values(g));
    assert(r@.map_values(f).len() == r@.len() && views.map_values(g).len() == found@.len());
    if 0 <= i < r@.len() {
        assert(r@.map_values(f)[i] == r@[i]@);
        assert(views.map_values(g)[i] == offered(
            found@[i].client@,
            found@[i].path@,
            found@[i].parsed@,
            existing@,
        ));
        assert(r@[i]@.servers.len() == r@[i].servers@.len());
        assert(r@[i]@.skipped.len() == r@[i].skipped@.len());
        assert(found@[i].parsed@.servers.len() == found@[i].parsed.servers@.len());
        assert(found@[i].parsed@.skipped.len() == found@[i].parsed.skipped@.len());
    }
}

} // verus!
