//! The config store: what a stored server is, how it is written into columns
//! and read back, and which migrations a database still needs.

use vstd::prelude::*;

use crate::error::{AppError, AppResult, ErrorView};
use crate::json;
use crate::json::{member, parse_json, Json, JsonView};
use crate::strmap;
use crate::strmap::{Duplicate, StrMap};
use crate::text;
use crate::text::{copy_option, copy_texts, i64_text, same_text};

verus! {

broadcast use vstd::string::group_string_axioms;

pub type ServerId = i64;

/// An environment value as stored in config. A secret is only ever a marker:
/// the real value lives in the OS credential manager and is resolved
/// just-in-time at spawn.
#[derive(Debug, PartialEq)]
pub enum EnvValue {
    Plain { value: String },
    Secret,
}

#[verifier::ext_equal]
pub enum EnvView {
    Plain { value: Seq<char> },
    Secret,
}

impl View for EnvValue {
    type V = EnvView;

    open spec fn view(&self) -> EnvView {
        match *self {
            EnvValue::Plain { value } => EnvView::Plain { value: value@ },
            EnvValue::Secret => EnvView::Secret,
        }
    }
}

impl EnvValue {
    /// Whether this is the secret marker.
    pub fn is_secret(&self) -> (r: bool)
        ensures
            r == (self@ is Secret),
    {
        match self {
            EnvValue::Plain { .. } => false,
            EnvValue::Secret => true,
        }
    }
}

impl Duplicate for EnvValue {
    fn duplicate(&self) -> (r: Self) {
        match self {
            EnvValue::Plain { value } => EnvValue::Plain { value: value.clone() },
            EnvValue::Secret => EnvValue::Secret,
        }
    }
}

impl Clone for EnvValue {
    fn clone(&self) -> (r: EnvValue)
        ensures
            r@ == self@,
    {
        self.duplicate()
    }
}

/// A server to be stored.
#[derive(Debug, PartialEq)]
pub struct NewServer {
    pub name: String,
    pub command: String,
    pub args: Vec<String>,
    pub env: StrMap<EnvValue>,
    pub cwd: Option<String>,
    pub auto_start: bool,
}

/// A stored server.
#[derive(Debug, PartialEq)]
pub struct ServerRecord {
    pub id: ServerId,
    pub name: String,
    pub command: String,
    pub args: Vec<String>,
    pub env: StrMap<EnvValue>,
    pub cwd: Option<String>,
    pub auto_start: bool,
}

#[verifier::ext_equal]
pub struct ServerView {
    pub name: Seq<char>,
    pub command: Seq<char>,
    pub args: Seq<Seq<char>>,
    pub env: Map<Seq<char>, EnvView>,
    pub cwd: Option<Seq<char>>,
    pub auto_start: bool,
}

#[verifier::ext_equal]
pub struct RecordView {
    pub id: ServerId,
    pub server: ServerView,
}

impl View for NewServer {
    type V = ServerView;

    open spec fn view(&self) -> ServerView {
        ServerView {
            name: self.name@,
            command: self.command@,
            args: text::texts(self.args@),
            env: self.env@,
            cwd: text::text_option(self.cwd),
            auto_start: self.auto_start,
        }
    }
}

impl View for ServerRecord {
    type V = RecordView;

    open spec fn view(&self) -> RecordView {
        RecordView {
            id: self.id,
            server: ServerView {
                name: self.name@,
                command: self.command@,
                args: text::texts(self.args@),
                env: self.env@,
                cwd: text::text_option(self.cwd),
                auto_start: self.auto_start,
            },
        }
    }
}

impl Clone for ServerRecord {
    fn clone(&self) -> (r: ServerRecord)
        ensures
            r@ == self@,
            r.env.items() == self.env.items(),
    {
        ServerRecord {
            id: self.id,
            name: self.name.clone(),
            command: self.command.clone(),
            args: copy_texts(&self.args),
            env: self.env.duplicate(),
            cwd: copy_option(&self.cwd),
            auto_start: self.auto_start,
        }
    }
}

/// The columns of one row of the `servers` table.
#[derive(Debug, PartialEq)]
pub struct Row {
    pub id: ServerId,
    pub name: String,
    pub command: String,
    pub args: String,
    pub env: String,
    pub cwd: Option<String>,
    pub auto_start: bool,
}

/// The `args` column: an array of strings.
pub open spec fn args_json(args: Seq<Seq<char>>) -> JsonView {
    JsonView::Array(args.map_values(|a: Seq<char>| JsonView::Str(a)))
}

/// One environment value in the `env` column. The secret marker has no payload
/// member.
pub open spec fn env_value_json(v: EnvView) -> JsonView {
    match v {
        EnvView::Plain { value } => JsonView::Object(
            seq![("kind"@, JsonView::Str("plain"@)), ("value"@, JsonView::Str(value))],
        ),
        EnvView::Secret => JsonView::Object(seq![("kind"@, JsonView::Str("secret"@))]),
    }
}

/// The `env` column: an object with one member per variable.
pub open spec fn env_json(items: Seq<(Seq<char>, EnvView)>) -> JsonView {
    JsonView::Object(
        items.map_values(|e: (Seq<char>, EnvView)| (e.0, env_value_json(e.1))),
    )
}

/// What an `args` column holds, if it is an array of strings.
pub open spec fn args_from(j: JsonView) -> Option<Seq<Seq<char>>> {
    match j {
        JsonView::Array(list) => if forall|i: int|
            0 <= i < list.len() ==> (#[trigger] list[i]) is Str {
            Some(list.map_values(|x: JsonView| x->Str_0))
        } else {
            None
        },
        _ => None,
    }
}

/// What a member of an `env` column holds, if it has one of the two shapes.
pub open spec fn env_value_from(j: JsonView) -> Option<EnvView> {
    match j.get("kind"@) {
        Some(JsonView::Str(kind)) => if kind == "secret"@ {
            Some(EnvView::Secret)
        } else if kind == "plain"@ {
            match j.get("value"@) {
                Some(JsonView::Str(value)) => Some(EnvView::Plain { value }),
                _ => None,
            }
        } else {
            None
        },
        _ => None,
    }
}

/// What an `env` column holds, if every member has one of the two shapes.
pub open spec fn env_from(j: JsonView) -> Option<Seq<(Seq<char>, EnvView)>> {
    match j {
        JsonView::Object(members) => if forall|i: int|
            0 <= i < members.len() ==> env_value_from((#[trigger] members[i]).1) is Some {
            Some(
                members.map_values(
                    |m: (Seq<char>, JsonView)| (m.0, env_value_from(m.1)->0),
                ),
            )
        } else {
            None
        },
        _ => None,
    }
}

proof fn lemma_env_names()
    ensures
        text::text_lt("kind"@, "value"@),
        "kind"@ != "value"@,
        "secret"@ != "plain"@,
{
    reveal_strlit("kind");
    reveal_strlit("value");
    reveal_strlit("secret");
    reveal_strlit("plain");
    assert("kind"@[0] == 'k' && "value"@[0] == 'v');
    assert("secret"@[0] == 's' && "plain"@[0] == 'p');
}

/// The column of a value is well-formed, flat, and read back as the value.
proof fn lemma_env_value(v: EnvView)
    ensures
        env_value_json(v).wf(),
        env_value_json(v).lossless(1),
        env_value_from(env_value_json(v)) == Some(v),
{
    lemma_env_names();
    let j = env_value_json(v);
    let members = j->Object_0;
    json::lemma_object_wf(members);
    assert(j.lossless(1)) by {
        assert forall|i: int| 0 <= i < members.len() implies (#[trigger] members[i]).1.lossless(
            0,
        ) by {}
    }
    assert(members[0].0 == "kind"@);
    match v {
        EnvView::Plain { value } => {
            let rest = members.drop_first();
            assert(rest[0] == members[1]);
            assert(json::lookup(members, "value"@) == json::lookup(rest, "value"@));
            assert(json::lookup(rest, "value"@) == Some(JsonView::Str(value)));
        },
        EnvView::Secret => {},
    }
}

fn env_value_to_json(v: &EnvValue) -> (r: Json)
    ensures
        r@ == env_value_json(v@),
{
    broadcast use json::group_json_views;

    let mut members: Vec<(String, Json)> = Vec::new();
    match v {
        EnvValue::Plain { value } => {
            members.push(member("kind", Json::string("plain")));
            members.push(member("value", Json::string(value.as_str())));
        },
        EnvValue::Secret => {
            members.push(member("kind", Json::string("secret")));
        },
    }
    assert(json::entries_view(members@) =~= env_value_json(v@)->Object_0);
    Json::Object(members)
}

fn env_value_of_json(j: &Json) -> (r: Option<EnvValue>)
    ensures
        match r {
            Some(v) => env_value_from(j@) == Some(v@),
            None => env_value_from(j@) is None,
        },
{
    match j.get("kind") {
        Some(Json::Str(kind)) => {
            if same_text(kind.as_str(), "secret") {
                Some(EnvValue::Secret)
            } else if same_text(kind.as_str(), "plain") {
                match j.get("value") {
                    Some(Json::Str(value)) => Some(EnvValue::Plain { value: value.clone() }),
                    _ => None,
                }
            } else {
                None
            }
        },
        _ => None,
    }
}

/// Arguments as an array of strings.
pub fn args_to_json(args: &Vec<String>) -> (r: Json)
    ensures
        r@ == args_json(text::texts(args@)),
        r@.wf(),
        r@.lossless(json::max_depth()),
{
    broadcast use json::group_json_views;

    let ghost whole = args_json(text::texts(args@))->Array_0;
    let mut items: Vec<Json> = Vec::new();
    let mut i: usize = 0;
    while i < args.len()
        invariant
            i <= args.len(),
            whole == args_json(text::texts(args@))->Array_0,
            json::items_view(items@) =~= whole.take(i as int),
        decreases args.len() - i,
    {
        let ghost before = items@;
        let item = Json::string(args[i].as_str());
        items.push(item);
        assert(json::items_view(items@) =~= json::items_view(before).push(item@));
        assert(whole[i as int] == item@);
        assert(whole.take(i + 1) =~= whole.take(i as int).push(item@));
        i = i + 1;
    }
    assert(json::items_view(items@) =~= whole);
    let j = Json::Array(items);
    proof {
        assert(j@ == JsonView::Array(whole));
        assert(j@.wf()) by {
            assert forall|k: int| 0 <= k < whole.len() implies (#[trigger] whole[k]).wf() by {}
        }
        assert(j@.lossless(json::max_depth())) by {
            assert forall|k: int| 0 <= k < whole.len() implies (#[trigger] whole[k]).lossless(
                (json::max_depth() - 1) as nat,
            ) by {}
        }
    }
    j
}

/// The text of the `args` column.
pub fn args_column(args: &Vec<String>) -> (r: String)
    ensures
        r@ == json::json_print(args_json(text::texts(args@))),
        json::json_text(r@) == Ok::<JsonView, Seq<char>>(args_json(text::texts(args@))),
{
    args_to_json(args).to_text()
}

/// An environment as an object with one member per variable.
pub fn env_to_json(env: &StrMap<EnvValue>) -> (r: Json)
    ensures
        r@ == env_json(env.items()),
        r@.wf(),
        r@.lossless(json::max_depth()),
{
    broadcast use json::group_json_views;

    let ghost whole = env_json(env.items())->Object_0;
    let count: usize = env.len();
    let mut members: Vec<(String, Json)> = Vec::new();
    let mut i: usize = 0;
    while i < count
        invariant
            i <= count,
            count == env.items().len(),
            strmap::ascending(env.items()),
            whole == env_json(env.items())->Object_0,
            json::entries_view(members@) =~= whole.take(i as int),
        decreases count - i,
    {
        let ghost before = members@;
        let value = env_value_to_json(env.value_at(i));
        let entry = member(env.key_at(i), value);
        members.push(entry);
        assert(json::entries_view(members@) =~= json::entries_view(before).push(
            (entry.0@, entry.1@),
        ));
        assert(whole[i as int] == (entry.0@, entry.1@));
        assert(whole.take(i + 1) =~= whole.take(i as int).push((entry.0@, entry.1@)));
        i = i + 1;
    }
    assert(json::entries_view(members@) =~= whole);
    let j = Json::Object(members);
    proof {
        assert(j@ == JsonView::Object(whole));
        lemma_env_json(env.items());
    }
    j
}

/// The text of the `env` column.
pub fn env_column(env: &StrMap<EnvValue>) -> (r: String)
    ensures
        r@ == json::json_print(env_json(env.items())),
        json::json_text(r@) == Ok::<JsonView, Seq<char>>(env_json(env.items())),
        env_json(env.items()).wf(),
{
    env_to_json(env).to_text()
}

/// The column of an environment is well-formed, flat, and read back as the
/// environment.
proof fn lemma_env_json(items: Seq<(Seq<char>, EnvView)>)
    requires
        strmap::ascending(items),
    ensures
        env_json(items).wf(),
        env_json(items).lossless(json::max_depth()),
        env_from(env_json(items)) == Some(items),
{
    let j = env_json(items);
    let members = j->Object_0;
    assert forall|a: int, b: int| 0 <= a < b < members.len() implies text::text_lt(
        #[trigger] members[a].0,
        #[trigger] members[b].0,
    ) by {
        assert(members[a].0 == items[a].0 && members[b].0 == items[b].0);
    }
    assert forall|i: int| 0 <= i < members.len() implies (#[trigger] members[i]).1.wf()
        && members[i].1.lossless((json::max_depth() - 1) as nat) && env_value_from(members[i].1)
        == Some(items[i].1) by {
        lemma_env_value(items[i].1);
        lemma_lossless_deeper(members[i].1, 1, (json::max_depth() - 1) as nat);
    }
    json::lemma_object_wf(members);
    assert(j.lossless(json::max_depth()));
    assert(env_from(j)->0 =~= items);
}

proof fn lemma_lossless_deeper(j: JsonView, a: nat, b: nat)
    requires
        j.lossless(a),
        a <= b,
    ensures
        j.lossless(b),
    decreases j,
{
    match j {
        JsonView::Array(items) => {
            assert forall|i: int| 0 <= i < items.len() implies (#[trigger] items[i]).lossless(
                (b - 1) as nat,
            ) by {
                lemma_lossless_deeper(items[i], (a - 1) as nat, (b - 1) as nat);
            }
            assert(j.lossless(b));
        },
        JsonView::Object(entries) => {
            assert forall|i: int| 0 <= i < entries.len() implies (#[trigger] entries[i]).1.lossless(
                (b - 1) as nat,
            ) by {
                lemma_lossless_deeper(entries[i].1, (a - 1) as nat, (b - 1) as nat);
            }
            assert(j.lossless(b));
        },
        _ => {},
    }
}

/// What is said of a text that is not an array of strings.
pub uninterp spec fn texts_fault(text: Seq<char>) -> Seq<char>;

/// The strings that a text denotes, if it is a JSON array of strings.
pub open spec fn texts_in(text: Seq<char>) -> Option<Seq<Seq<char>>> {
    match json::json_text(text) {
        Ok(j) => args_from(j),
        Err(_) => None,
    }
}

/// `serde_json::from_str` into a `Vec<String>`: the strings of the array that
/// the text denotes, or the parser's message where it denotes anything else.
#[verifier::external_body]
fn parse_texts(text: &str) -> (r: Result<Vec<String>, String>)
    ensures
        match r {
            Ok(list) => texts_in(text@) == Some(text::texts(list@)),
            Err(e) => texts_in(text@) is None && e@ == texts_fault(text@),
        },
{
    serde_json::from_str::<Vec<String>>(text).map_err(|e| e.to_string())
}

/// The environment that an `env` column holds.
pub fn env_of_json(j: &Json) -> (r: Option<StrMap<EnvValue>>)
    requires
        j@.wf(),
    ensures
        match r {
            Some(env) => env_from(j@) == Some(env.items()),
            None => env_from(j@) is None,
        },
{
    broadcast use json::group_json_views;

    match j {
        Json::Object(members) => {
            let ghost whole = json::entries_view(members@);
            let ghost want = whole.map_values(
                |m: (Seq<char>, JsonView)| (m.0, env_value_from(m.1)->0),
            );
            let mut env: StrMap<EnvValue> = StrMap::new();
            let mut i: usize = 0;
            assert(env.items() =~= want.take(0));
            while i < members.len()
                invariant
                    i <= members.len(),
                    whole == json::entries_view(members@),
                    want == whole.map_values(
                        |m: (Seq<char>, JsonView)| (m.0, env_value_from(m.1)->0),
                    ),
                    j@ == JsonView::Object(whole),
                    json::names_ascend(whole),
                    forall|k: int|
                        0 <= k < i ==> env_value_from((#[trigger] whole[k]).1) is Some,
                    env.items() == want.take(i as int),
                decreases members.len() - i,
            {
                assert(whole[i as int] == (members@[i as int].0@, members@[i as int].1@));
                match env_value_of_json(&members[i].1) {
                    Some(value) => {
                        assert forall|k: int| 0 <= k < env.items().len() implies text::text_lt(
                            (#[trigger] env.items()[k]).0,
                            whole[i as int].0,
                        ) by {
                            assert(env.items()[k].0 == whole[k].0);
                        }
                        assert(want[i as int] == (members@[i as int].0@, value@));
                        env.insert(members[i].0.clone(), value);
                        assert(want.take(i + 1) =~= want.take(i as int).push(want[i as int]));
                    },
                    None => {
                        return None;
                    },
                }
                i = i + 1;
            }
            assert(want.take(want.len() as int) =~= want);
            Some(env)
        },
        _ => None,
    }
}

/// The columns that hold a server under `id`.
pub open spec fn row_holds(row: Row, id: ServerId, server: ServerView) -> bool {
    &&& row.id == id
    &&& row.name@ == server.name
    &&& row.command@ == server.command
    &&& text::text_option(row.cwd) == server.cwd
    &&& row.auto_start == server.auto_start
    &&& texts_in(row.args@) == Some(server.args)
    &&& json::json_text(row.env@) is Ok
    &&& env_from(json::json_text(row.env@)->Ok_0) is Some
    &&& strmap::keyed(env_from(json::json_text(row.env@)->Ok_0)->0) == server.env
}

/// What reading a row yields. A column that does not hold what it should is
/// reported as a JSON failure.
pub open spec fn row_result(row: Row) -> Result<RecordView, ErrorView> {
    match texts_in(row.args@) {
        None => Err(ErrorView::Json(texts_fault(row.args@))),
        Some(args) => match json::json_text(row.env@) {
            Err(message) => Err(ErrorView::Json(message)),
            Ok(env) => match env_from(env) {
                None => Err(ErrorView::Json("env is not an object of environment values"@)),
                Some(items) => Ok(
                    RecordView {
                        id: row.id,
                        server: ServerView {
                            name: row.name@,
                            command: row.command@,
                            args,
                            env: strmap::keyed(items),
                            cwd: text::text_option(row.cwd),
                            auto_start: row.auto_start,
                        },
                    },
                ),
            },
        },
    }
}

/// Read a row. A corrupted row is reported precisely.
pub fn row_to_record(row: Row) -> (r: AppResult<ServerRecord>)
    ensures
        match r {
            Ok(record) => row_result(row) == Ok::<RecordView, ErrorView>(record@),
            Err(e) => row_result(row) == Err::<RecordView, ErrorView>(e@),
        },
{
    let args = match parse_texts(row.args.as_str()) {
        Ok(args) => args,
        Err(message) => {
            return Err(AppError::Json(message));
        },
    };
    let env = match parse_json(row.env.as_str()) {
        Ok(j) => match env_of_json(&j) {
            Some(env) => env,
            None => {
                return Err(
                    AppError::Json("env is not an object of environment values".to_owned()),
                );
            },
        },
        Err(message) => {
            return Err(AppError::Json(message));
        },
    };
    Ok(
        ServerRecord {
            id: row.id,
            name: row.name,
            command: row.command,
            args,
            env,
            cwd: row.cwd,
            auto_start: row.auto_start,
        },
    )
}

/// The columns of a server that is about to be inserted; its id is the one the
/// database assigns.
pub fn insert_server(new: &NewServer, id: ServerId) -> (r: Row)
    ensures
        row_holds(r, id, new@),
        r.env@ == json::json_print(env_json(new.env.items())),
{
    let args = args_column(&new.args);
    let env = env_column(&new.env);
    proof {
        lemma_args_json(text::texts(new.args@));
        lemma_env_read_back(new.env);
    }
    Row {
        id,
        name: new.name.clone(),
        command: new.command.clone(),
        args,
        env,
        cwd: copy_option(&new.cwd),
        auto_start: new.auto_start,
    }
}

/// The columns that an update writes.
pub fn update_server(record: &ServerRecord) -> (r: Row)
    ensures
        row_holds(r, record@.id, record@.server),
        r.env@ == json::json_print(env_json(record.env.items())),
{
    let args = args_column(&record.args);
    let env = env_column(&record.env);
    proof {
        lemma_args_json(text::texts(record.args@));
        lemma_env_read_back(record.env);
    }
    Row {
        id: record.id,
        name: record.name.clone(),
        command: record.command.clone(),
        args,
        env,
        cwd: copy_option(&record.cwd),
        auto_start: record.auto_start,
    }
}

proof fn lemma_args_json(args: Seq<Seq<char>>)
    ensures
        args_from(args_json(args)) == Some(args),
{
    let list = args_json(args)->Array_0;
    assert forall|i: int| 0 <= i < list.len() implies (#[trigger] list[i]) is Str by {}
    assert(list.map_values(|x: JsonView| x->Str_0) =~= args);
}

proof fn lemma_env_read_back(env: StrMap<EnvValue>)
    requires
        env_json(env.items()).wf(),
    ensures
        env_from(env_json(env.items())) == Some(env.items()),
{
    let items = env.items();
    let members = env_json(items)->Object_0;
    assert(json::names_ascend(members));
    assert forall|a: int, b: int| 0 <= a < b < items.len() implies text::text_lt(
        #[trigger] items[a].0,
        #[trigger] items[b].0,
    ) by {
        assert(members[a].0 == items[a].0 && members[b].0 == items[b].0);
    }
    lemma_env_json(items);
}

/// What is read back is what was written.
pub proof fn law_reading_a_row_gives_back_the_record(row: Row, id: ServerId, server: ServerView)
    requires
        row_holds(row, id, server),
    ensures
        row_result(row) == Ok::<RecordView, ErrorView>(RecordView { id, server }),
{
}

/// Nothing of a secret is written: the column of a secret marker is the marker.
pub proof fn law_secrets_store_no_payload(items: Seq<(Seq<char>, EnvView)>, i: int)
    requires
        0 <= i < items.len(),
        items[i].1 is Secret,
    ensures
        env_json(items)->Object_0[i] == (
            items[i].0,
            JsonView::Object(seq![("kind"@, JsonView::Str("secret"@))]),
        ),
{
}

/// The answer to looking a server up.
pub fn get_server(row: Option<Row>, id: ServerId) -> (r: AppResult<ServerRecord>)
    ensures
        match row {
            None => r is Err && r->Err_0@ == ErrorView::ServerNotFound(text::decimal(id as int)),
            Some(row) => match r {
                Ok(record) => row_result(row) == Ok::<RecordView, ErrorView>(record@),
                Err(e) => row_result(row) == Err::<RecordView, ErrorView>(e@),
            },
        },
{
    match row {
        Some(row) => row_to_record(row),
        None => Err(AppError::ServerNotFound(i64_text(id))),
    }
}

/// The answer to an update or a delete that changed `changed` rows.
pub fn require_changed(changed: usize, id: ServerId) -> (r: AppResult<()>)
    ensures
        changed > 0 ==> r is Ok,
        changed == 0 ==> r is Err && r->Err_0@ == ErrorView::ServerNotFound(
            text::decimal(id as int),
        ),
{
    if changed == 0 {
        Err(AppError::ServerNotFound(i64_text(id)))
    } else {
        Ok(())
    }
}

/// The answer to listing every row, in the order of the rows: the first row
/// that cannot be read fails the whole.
pub fn list_servers(rows: Vec<Row>) -> (r: AppResult<Vec<ServerRecord>>)
    ensures
        match r {
            Ok(records) => records@.len() == rows@.len() && forall|i: int|
                0 <= i < rows@.len() ==> row_result(#[trigger] rows@[i]) == Ok::<
                    RecordView,
                    ErrorView,
                >(records@[i]@),
            Err(e) => exists|i: int|
                0 <= i < rows@.len() && row_result(#[trigger] rows@[i]) == Err::<
                    RecordView,
                    ErrorView,
                >(e@) && forall|j: int| 0 <= j < i ==> row_result(#[trigger] rows@[j]) is Ok,
        },
{
    let mut records: Vec<ServerRecord> = Vec::new();
    for row in iter: rows
        invariant
            iter.seq() == rows@,
            records@.len() == iter.index(),
            forall|i: int|
                0 <= i < records@.len() ==> row_result(rows@[i]) == Ok::<RecordView, ErrorView>(
                    (#[trigger] records@[i])@,
                ),
    {
        assert(rows@[iter.index()] == row);
        match row_to_record(row) {
            Ok(record) => {
                records.push(record);
            },
            Err(e) => {
                assert forall|j: int| 0 <= j < iter.index() implies row_result(
                    #[trigger] rows@[j],
                ) is Ok by {
                    assert(row_result(rows@[j]) == Ok::<RecordView, ErrorView>(records@[j]@));
                }
                return Err(e);
            },
        }
    }
    assert forall|i: int| 0 <= i < rows@.len() implies row_result(#[trigger] rows@[i]) == Ok::<
        RecordView,
        ErrorView,
    >(records@[i]@) by {
        assert(row_result(rows@[i]) == Ok::<RecordView, ErrorView>(records@[i]@));
    }
    Ok(records)
}

/// How many schema versions there are.
pub const SCHEMA_VERSION: usize = 2;

/// One statement batch per schema version. Append-only: a shipped migration is
/// never edited.
pub fn migration(version: usize) -> (r: &'static str)
    requires
        1 <= version <= SCHEMA_VERSION,
    ensures
        r@ == migration_text(version as int),
{
    if version == 1 {
        "CREATE TABLE servers (
        id         INTEGER PRIMARY KEY,
        name       TEXT NOT NULL UNIQUE,
        command    TEXT NOT NULL,
        args       TEXT NOT NULL DEFAULT '[]',
        env        TEXT NOT NULL DEFAULT '{}',
        cwd        TEXT,
        auto_start INTEGER NOT NULL DEFAULT 0
    );"
    } else {
        "CREATE TABLE servers_v2 (
        id         INTEGER PRIMARY KEY AUTOINCREMENT,
        name       TEXT NOT NULL UNIQUE,
        command    TEXT NOT NULL,
        args       TEXT NOT NULL DEFAULT '[]',
        env        TEXT NOT NULL DEFAULT '{}',
        cwd        TEXT,
        auto_start INTEGER NOT NULL DEFAULT 0
    );
    INSERT INTO servers_v2 (id, name, command, args, env, cwd, auto_start)
        SELECT id, name, command, args, env, cwd, auto_start FROM servers;
    DROP TABLE servers;
    ALTER TABLE servers_v2 RENAME TO servers;"
    }
}

/// The batch that brings a database to `version`: the table, then the table
/// with ids that are never reused.
pub open spec fn migration_text(version: int) -> Seq<char> {
    if version == 1 {
        "CREATE TABLE servers (
        id         INTEGER PRIMARY KEY,
        name       TEXT NOT NULL UNIQUE,
        command    TEXT NOT NULL,
        args       TEXT NOT NULL DEFAULT '[]',
        env        TEXT NOT NULL DEFAULT '{}',
        cwd        TEXT,
        auto_start INTEGER NOT NULL DEFAULT 0
    );"@
    } else {
        "CREATE TABLE servers_v2 (
        id         INTEGER PRIMARY KEY AUTOINCREMENT,
        name       TEXT NOT NULL UNIQUE,
        command    TEXT NOT NULL,
        args       TEXT NOT NULL DEFAULT '[]',
        env        TEXT NOT NULL DEFAULT '{}',
        cwd        TEXT,
        auto_start INTEGER NOT NULL DEFAULT 0
    );
    INSERT INTO servers_v2 (id, name, command, args, env, cwd, auto_start)
        SELECT id, name, command, args, env, cwd, auto_start FROM servers;
    DROP TABLE servers;
    ALTER TABLE servers_v2 RENAME TO servers;"@
    }
}

/// The versions that a database at version `applied` still needs, in order. A
/// database that reports a negative version is left alone.
pub open spec fn pending_versions(applied: int) -> Seq<int> {
    if 0 <= applied < SCHEMA_VERSION {
        Seq::new((SCHEMA_VERSION - applied) as nat, |i: int| applied + 1 + i)
    } else {
        Seq::empty()
    }
}

/// The migrations that a database whose `user_version` is `applied` still
/// needs: the version each brings it to, and its batch.
pub fn migrate(applied: i64) -> (r: Vec<(i64, &'static str)>)
    ensures
        r@.map_values(|m: (i64, &'static str)| m.0 as int) == pending_versions(applied as int),
        forall|i: int|
            0 <= i < r@.len() ==> (#[trigger] r@[i]).1@ == migration_text(r@[i].0 as int),
{
    let mut out: Vec<(i64, &'static str)> = Vec::new();
    if applied < 0 || applied >= SCHEMA_VERSION as i64 {
        assert(out@.map_values(|m: (i64, &'static str)| m.0 as int) =~= Seq::empty());
        return out;
    }
    let ghost want = pending_versions(applied as int);
    let mut version: usize = applied as usize;
    while version < SCHEMA_VERSION
        invariant
            0 <= applied <= version <= SCHEMA_VERSION,
            applied < SCHEMA_VERSION,
            want == pending_versions(applied as int),
            out@.map_values(|m: (i64, &'static str)| m.0 as int) =~= want.take(
                version - applied,
            ),
            forall|i: int|
                0 <= i < out@.len() ==> (#[trigger] out@[i]).1@ == migration_text(
                    out@[i].0 as int,
                ),
        decreases SCHEMA_VERSION - version,
    {
        let ghost before = out@;
        version = version + 1;
        out.push((version as i64, migration(version)));
        assert(out@.map_values(|m: (i64, &'static str)| m.0 as int) =~= before.map_values(
            |m: (i64, &'static str)| m.0 as int,
        ).push(version as int));
        assert(want.take(version - applied) =~= want.take(version - applied - 1).push(
            version as int,
        ));
    }
    assert(want.take(want.len() as int) =~= want);
    out
}

/// Migrations apply once: they bring any database that needs them to the
/// current version, and a database at that version needs none.
pub proof fn law_migrations_apply_once(applied: int)
    requires
        0 <= applied < SCHEMA_VERSION,
    ensures
        pending_versions(applied).len() > 0,
        pending_versions(applied)[0] == applied + 1,
        forall|i: int|
            0 < i < pending_versions(applied).len() ==> #[trigger] pending_versions(applied)[i]
                == pending_versions(applied)[i - 1] + 1,
        pending_versions(applied).last() == SCHEMA_VERSION,
        pending_versions(pending_versions(applied).last()).len() == 0,
{
}

/// A row is read column by column: its arguments are the strings of the array in
/// its `args`, in order, and its variables are the members of the object in its
/// `env`, each under its name, a marker where the kind is `secret` and the very
/// value where it is `plain`.
pub proof fn law_columns_are_read_as_they_stand(
    row: Row,
    list: Seq<JsonView>,
    members: Seq<(Seq<char>, JsonView)>,
    i: int,
    value: Seq<char>,
)
    requires
        json::json_text(row.args@) == Ok::<JsonView, Seq<char>>(JsonView::Array(list)),
        forall|n: int| 0 <= n < list.len() ==> (#[trigger] list[n]) is Str,
        json::json_text(row.env@) == Ok::<JsonView, Seq<char>>(JsonView::Object(members)),
        json::names_ascend(members),
        forall|n: int|
            0 <= n < members.len() ==> ((#[trigger] members[n]).1.get("kind"@) == Some(
                JsonView::Str("secret"@),
            ) || (members[n].1.get("kind"@) == Some(JsonView::Str("plain"@))
                && members[n].1.get("value"@) matches Some(JsonView::Str(_)))),
    ensures
        row_result(row) is Ok,
        ({
            let record = row_result(row)->Ok_0;
            &&& record.id == row.id
            &&& record.server.name == row.name@
            &&& record.server.command == row.command@
            &&& record.server.auto_start == row.auto_start
            &&& row.cwd is None ==> record.server.cwd is None
            &&& row.cwd matches Some(path) ==> record.server.cwd == Some(path@)
            &&& record.server.args.len() == list.len()
            &&& 0 <= i < list.len() ==> JsonView::Str(record.server.args[i]) == list[i]
            &&& 0 <= i < members.len() ==> {
                let key = members[i].0;
                &&& record.server.env.contains_key(key)
                &&& members[i].1.get("kind"@) == Some(JsonView::Str("secret"@))
                    ==> record.server.env[key] == EnvView::Secret
                &&& members[i].1.get("kind"@) == Some(JsonView::Str("plain"@))
                    && members[i].1.get("value"@) == Some(JsonView::Str(value))
                    ==> record.server.env[key] == (EnvView::Plain { value })
            }
            &&& forall|key: Seq<char>| #[trigger]
                record.server.env.contains_key(key) ==> exists|n: int|
                    0 <= n < members.len() && (#[trigger] members[n]).0 == key
        }),
{
    lemma_env_names();
    assert forall|n: int| 0 <= n < members.len() implies env_value_from(
        (#[trigger] members[n]).1,
    ) is Some by {
        assert(members[n].1.get("kind"@) is Some);
    }
    let items = env_from(JsonView::Object(members))->0;
    assert(items.len() == members.len());
    assert forall|a: int, b: int| 0 <= a < b < items.len() implies text::text_lt(
        #[trigger] items[a].0,
        #[trigger] items[b].0,
    ) by {
        assert(items[a].0 == members[a].0 && items[b].0 == members[b].0);
    }
    strmap::lemma_keyed(items);
    if 0 <= i < members.len() {
        assert(items[i].0 == members[i].0);
        assert(strmap::keyed(items)[items[i].0] == items[i].1);
    }
    let env = strmap::keyed(items);
    assert forall|key: Seq<char>| #[trigger] env.contains_key(key) implies exists|n: int|
        0 <= n < members.len() && (#[trigger] members[n]).0 == key by {
        let n = choose|n: int| 0 <= n < items.len() && (#[trigger] items[n]).0 == key;
        assert(members[n].0 == key);
    }
}

/// A row whose arguments are no array of strings, or whose variables are no
/// object of markers and plain values, is refused.
pub proof fn law_corrupted_rows_are_refused(row: Row, n: int)
    ensures
        json::json_text(row.args@) is Err ==> row_result(row) is Err,
        json::json_text(row.args@) matches Ok(j) ==> !(j is Array) ==> row_result(row) is Err,
        json::json_text(row.args@) matches Ok(JsonView::Array(list)) ==> 0 <= n < list.len() && !(
        list[n] is Str) ==> row_result(row) is Err,
        json::json_text(row.env@) is Err ==> row_result(row) is Err,
        json::json_text(row.env@) matches Ok(j) ==> !(j is Object) ==> row_result(row) is Err,
        json::json_text(row.env@) matches Ok(JsonView::Object(members)) ==> 0 <= n < members.len()
            && members[n].1.get("kind"@) != Some(JsonView::Str("secret"@)) && !(members[n].1.get(
            "kind"@,
        ) == Some(JsonView::Str("plain"@)) && members[n].1.get("value"@) matches Some(
            JsonView::Str(_),
        )) ==> row_result(row) is Err,
        row_result(row) matches Err(e) ==> e is Json,
{
    lemma_env_names();
    if json::json_text(row.env@) is Ok {
        let j = json::json_text(row.env@)->Ok_0;
        if j is Object {
            let members = j->Object_0;
            if 0 <= n < members.len() && members[n].1.get("kind"@) != Some(
                JsonView::Str("secret"@),
            ) && !(members[n].1.get("kind"@) == Some(JsonView::Str("plain"@)) && members[n].1.get(
                "value"@,
            ) matches Some(JsonView::Str(_))) {
                assert(env_value_from(members[n].1) is None);
                assert(env_from(j) is None);
            }
        }
    }
}

/// What is written of the arguments is their texts in order; of a variable, its
/// name with its kind, and its value where it is plain; nothing of a secret.
pub proof fn law_columns_are_written_as_they_are(
    args: Seq<Seq<char>>,
    items: Seq<(Seq<char>, EnvView)>,
    i: int,
)
    ensures
        args_json(args) matches JsonView::Array(list) && list.len() == args.len() && (0 <= i
            < args.len() ==> list[i] == JsonView::Str(args[i])),
        env_json(items) matches JsonView::Object(members) && members.len() == items.len() && (0 <= i
            < items.len() ==> {
            let (key, written) = members[i];
            &&& key == items[i].0
            &&& items[i].1 matches EnvView::Plain { value } ==> written.get("kind"@) == Some(
                JsonView::Str("plain"@),
            ) && written.get("value"@) == Some(JsonView::Str(value)) && written->Object_0.len() == 2
            &&& items[i].1 is Secret ==> written.get("kind"@) == Some(JsonView::Str("secret"@))
                && written->Object_0.len() == 1
        }),
{
    lemma_env_names();
    if 0 <= i < items.len() {
        let written = env_value_json(items[i].1)->Object_0;
        assert(written[0].0 == "kind"@);
        if items[i].1 is Plain {
            assert(written[1].0 == "value"@);
        }
        json::law_members_are_found_by_name(written, "kind"@);
        json::law_members_are_found_by_name(written, "value"@);
    }
}

/// A new database gets both versions of the schema, one at the first version the
/// second, and a current or newer one, or one with a version that makes no
/// sense, nothing.
pub proof fn law_databases_are_brought_up_to_date(applied: int)
    ensures
        pending_versions(0) == seq![1int, 2],
        pending_versions(1) == seq![2int],
        applied >= 2 || applied < 0 ==> pending_versions(applied).len() == 0,
{
    assert(pending_versions(0) =~= seq![1int, 2]);
    assert(pending_versions(1) =~= seq![2int]);
}

/// A server is seen field by field: all its arguments in order, and under each
/// name of a variable its value, or the marker.
pub proof fn law_servers_are_seen_as_they_are(r: ServerRecord, n: NewServer, i: int, value: String)
    ensures
        r@.id == r.id,
        r@.server.name == r.name@ && r@.server.command == r.command@,
        r@.server.auto_start == r.auto_start && r@.server.env == r.env@,
        r@.server.args.len() == r.args@.len(),
        0 <= i < r.args@.len() ==> r@.server.args[i] == r.args@[i]@,
        r.cwd matches Some(path) ==> r@.server.cwd == Some(path@),
        r.cwd is None ==> r@.server.cwd is None,
        n@.name == n.name@ && n@.command == n.command@,
        n@.auto_start == n.auto_start && n@.env == n.env@,
        n@.args.len() == n.args@.len(),
        0 <= i < n.args@.len() ==> n@.args[i] == n.args@[i]@,
        n.cwd matches Some(path) ==> n@.cwd == Some(path@),
        n.cwd is None ==> n@.cwd is None,
        (EnvValue::Plain { value })@ == (EnvView::Plain { value: value@ }),
        EnvValue::Secret@ == EnvView::Secret,
{
}

/// What is written comes back: a stored server is read with the id it was stored
/// under and all that it had, and so is an updated one.
pub proof fn law_what_is_written_comes_back(
    new: NewServer,
    id: ServerId,
    row: Row,
    r: AppResult<ServerRecord>,
    record: ServerRecord,
    updated: Row,
    again: AppResult<ServerRecord>,
)
    requires
        call_ensures(insert_server, (&new, id), row),
        call_ensures(row_to_record, (row,), r),
        call_ensures(update_server, (&record,), updated),
        call_ensures(row_to_record, (updated,), again),
    ensures
        r matches Ok(stored) && stored.id == id && stored@.server == new@,
        again matches Ok(stored) && stored@ == record@,
{
    law_reading_a_row_gives_back_the_record(row, id, new@);
    law_reading_a_row_gives_back_the_record(updated, record.id, record@.server);
}

/// A list has every row in its order, or fails as a row does that cannot be
/// read; a server that is not there is reported by its id.
pub proof fn law_lists_are_complete(
    rows: Vec<Row>,
    r: AppResult<Vec<ServerRecord>>,
    i: int,
    id: ServerId,
    missing: AppResult<ServerRecord>,
    untouched: AppResult<()>,
    changed: usize,
    touched: AppResult<()>,
)
    requires
        call_ensures(list_servers, (rows,), r),
        0 <= i < rows@.len(),
        call_ensures(get_server, (None, id), missing),
        call_ensures(require_changed, (0, id), untouched),
        changed > 0,
        call_ensures(require_changed, (changed, id), touched),
    ensures
        r matches Ok(records) ==> records@.len() == rows@.len() && row_result(rows@[i]) == Ok::<
            RecordView,
            ErrorView,
        >(records@[i]@),
        row_result(rows@[i]) is Err ==> r is Err,
        r is Err ==> exists|n: int| 0 <= n < rows@.len() && row_result(#[trigger] rows@[n]) is Err,
        missing matches Err(e) && e@ == ErrorView::ServerNotFound(text::decimal(id as int)),
        untouched matches Err(e) && e@ == ErrorView::ServerNotFound(text::decimal(id as int)),
        touched is Ok,
{
}

/// A database is handed exactly the migrations that it lacks, in their order.
pub proof fn law_only_what_lacks_is_applied(
    fresh: Vec<(i64, &'static str)>,
    first: Vec<(i64, &'static str)>,
    current: i64,
    done: Vec<(i64, &'static str)>,
)
    requires
        call_ensures(migrate, (0,), fresh),
        call_ensures(migrate, (1,), first),
        current >= 2 || current < 0,
        call_ensures(migrate, (current,), done),
    ensures
        fresh@.len() == 2 && fresh@[0].0 == 1 && fresh@[1].0 == 2,
        first@.len() == 1 && first@[0].0 == 2,
        first@[0].1@ == fresh@[1].1@,
        done@.len() == 0,
{
    let f = |m: (i64, &'static str)| m.0 as int;
    law_databases_are_brought_up_to_date(current as int);
    assert(fresh@.map_values(f) == seq![1int, 2]);
    assert(first@.map_values(f) == seq![2int]);
    assert(fresh@.map_values(f).len() == fresh@.len() && first@.map_values(f).len() == first@.len());
    assert(fresh@.map_values(f)[0] == fresh@[0].0 && fresh@.map_values(f)[1] == fresh@[1].0);
    assert(first@.map_values(f)[0] == first@[0].0);
    assert(done@.map_values(f).len() == done@.len());
}

} // verus!
