//! Secret env values live in the OS credential manager under
//! `mcpanel/<id>/<key>`, never in config or database, which only ever hold the
//! [`EnvValue::Secret`] marker; the real value is resolved just-in-time at
//! spawn.
//!
//! Entries are keyed by server *id*, not name: names are mutable, and ids are
//! never reused, so a recreated server cannot inherit a deleted server's
//! secrets. Entries under the legacy `<name>/<key>` account are moved by
//! [`migrate_name_keyed_secrets`].
//!
//! The functions here decide; the credential store itself is reached by their
//! caller, who performs the actions and hands back the replies.

use vstd::prelude::*;

use crate::db::{EnvValue, EnvView, RecordView, ServerId, ServerRecord};
use crate::error::{AppError, AppResult, ErrorView};
use crate::strmap;
use crate::strmap::StrMap;
use crate::text;
use crate::text::{concat, i64_text};

verus! {

broadcast use vstd::string::group_string_axioms;

/// The service under which every entry is stored.
pub const SERVICE: &'static str = "mcpanel";

/// The account of a server's secret.
pub open spec fn spec_account(id: ServerId, key: Seq<char>) -> Seq<char> {
    text::decimal(id as int) + "/"@ + key
}

/// The account under which older installs stored a server's secret.
pub open spec fn spec_legacy_account(name: Seq<char>, key: Seq<char>) -> Seq<char> {
    name + "/"@ + key
}

/// The account of a server's secret: `<id>/<key>`.
pub fn account(id: ServerId, key: &str) -> (r: String)
    ensures
        r@ == spec_account(id, key@),
{
    let number = i64_text(id);
    let head = concat(number.as_str(), "/");
    concat(head.as_str(), key)
}

fn legacy_account(name: &str, key: &str) -> (r: String)
    ensures
        r@ == spec_legacy_account(name@, key@),
{
    let head = concat(name, "/");
    concat(head.as_str(), key)
}

/// No two secrets share an account.
pub proof fn law_accounts_are_distinct(a: ServerId, k: Seq<char>, b: ServerId, l: Seq<char>)
    requires
        spec_account(a, k) == spec_account(b, l),
    ensures
        a == b,
        k == l,
{
    reveal_strlit("/");
    let x = text::decimal(a as int);
    let y = text::decimal(b as int);
    lemma_decimal_has_no_slash(a as int);
    lemma_decimal_has_no_slash(b as int);
    let s = spec_account(a, k);
    assert(s[x.len() as int] == '/');
    assert(s[y.len() as int] == '/');
    if x.len() < y.len() {
        assert(s[x.len() as int] == y[x.len() as int]);
    }
    if y.len() < x.len() {
        assert(s[y.len() as int] == x[y.len() as int]);
    }
    assert(x =~= s.take(x.len() as int));
    assert(y =~= s.take(x.len() as int));
    text::lemma_decimal_injective(a as int, b as int);
    assert(k =~= s.skip(x.len() as int + 1));
    assert(l =~= s.skip(x.len() as int + 1));
}

proof fn lemma_decimal_has_no_slash(n: int)
    ensures
        forall|i: int| 0 <= i < text::decimal(n).len() ==> #[trigger] text::decimal(n)[i] != '/',
{
    if n < 0 {
        text::lemma_digits_are_digits((-n) as nat);
        let d = text::digits((-n) as nat);
        assert forall|i: int| 0 <= i < text::decimal(n).len() implies #[trigger] text::decimal(n)[i]
            != '/' by {
            if i > 0 {
                assert(text::decimal(n)[i] == d[i - 1]);
            }
        }
    } else {
        text::lemma_digits_are_digits(n as nat);
    }
}

/// A server never inherits another's secrets: an account belongs to one id.
pub proof fn law_ids_do_not_share_accounts(
    a: ServerId,
    b: ServerId,
    k: Seq<char>,
    l: Seq<char>,
)
    requires
        a != b,
    ensures
        spec_account(a, k) != spec_account(b, l),
{
    if spec_account(a, k) == spec_account(b, l) {
        law_accounts_are_distinct(a, k, b, l);
    }
}

/// Why the credential store did not do as asked.
#[derive(Debug, PartialEq)]
pub enum KeyringFault {
    /// There is no entry under the account.
    NoEntry(String),
    Other(String),
}

impl KeyringFault {
    pub open spec fn text(self) -> Seq<char> {
        match self {
            KeyringFault::NoEntry(m) => m@,
            KeyringFault::Other(m) => m@,
        }
    }

    fn into_error(self) -> (r: AppError)
        ensures
            r@ == ErrorView::Keyring(self.text()),
    {
        match self {
            KeyringFault::NoEntry(m) => AppError::Keyring(m),
            KeyringFault::Other(m) => AppError::Keyring(m),
        }
    }
}

/// The answer to storing a secret.
pub fn store_secret(reply: Result<(), KeyringFault>) -> (r: AppResult<()>)
    ensures
        match reply {
            Ok(_) => r is Ok,
            Err(fault) => r is Err && r->Err_0@ == ErrorView::Keyring(fault.text()),
        },
{
    match reply {
        Ok(_) => Ok(()),
        Err(fault) => Err(fault.into_error()),
    }
}

/// The answer to fetching a secret: an absent one is a failure.
pub fn get_secret(reply: Result<String, KeyringFault>) -> (r: AppResult<String>)
    ensures
        match reply {
            Ok(value) => r == Ok::<String, AppError>(value),
            Err(fault) => r is Err && r->Err_0@ == ErrorView::Keyring(fault.text()),
        },
{
    match reply {
        Ok(value) => Ok(value),
        Err(fault) => Err(fault.into_error()),
    }
}

/// The answer to deleting a secret. Deleting an already-absent credential is
/// not an error: the desired end state is reached either way.
pub fn delete_secret(reply: Result<(), KeyringFault>) -> (r: AppResult<()>)
    ensures
        match reply {
            Ok(_) => r is Ok,
            Err(KeyringFault::NoEntry(_)) => r is Ok,
            Err(KeyringFault::Other(m)) => r is Err && r->Err_0@ == ErrorView::Keyring(m@),
        },
{
    match reply {
        Ok(_) => Ok(()),
        Err(KeyringFault::NoEntry(_)) => Ok(()),
        Err(KeyringFault::Other(m)) => Err(AppError::Keyring(m)),
    }
}

/// The environment of a server on its way to the spawned process: plain values
/// pass through, secret markers are fetched from the credential store.
pub struct EnvResolver {
    id: ServerId,
    env: StrMap<EnvValue>,
    next: usize,
    resolved: StrMap<String>,
}

/// The value that an entry has once it is resolved.
pub open spec fn resolves(v: EnvView, resolved: Seq<char>) -> bool {
    v matches EnvView::Plain { value } ==> resolved == value
}

impl EnvResolver {
    /// The server's id.
    pub closed spec fn server(self) -> ServerId {
        self.id
    }

    /// The entries to resolve, in the order in which they are taken up.
    pub closed spec fn entries(self) -> Seq<(Seq<char>, EnvView)> {
        self.env.items()
    }

    /// How many entries are resolved.
    pub closed spec fn done(self) -> int {
        self.next as int
    }

    /// The values of the resolved entries.
    pub closed spec fn values(self) -> Seq<(Seq<char>, Seq<char>)> {
        self.resolved.items()
    }

    /// The resolved entries are the first ones, under their names, the plain
    /// ones with their values.
    pub open spec fn wf(self) -> bool {
        &&& strmap::ascending(self.entries())
        &&& 0 <= self.done() <= self.entries().len()
        &&& self.values().len() == self.done()
        &&& forall|i: int|
            0 <= i < self.done() ==> (#[trigger] self.values()[i]).0 == self.entries()[i].0
                && resolves(self.entries()[i].1, self.values()[i].1)
    }

    proof fn lemma_before(self)
        requires
            self.wf(),
            self.done() < self.entries().len(),
        ensures
            forall|i: int|
                0 <= i < self.values().len() ==> text::text_lt(
                    (#[trigger] self.values()[i]).0,
                    self.entries()[self.done()].0,
                ),
    {
        assert forall|i: int| 0 <= i < self.values().len() implies text::text_lt(
            (#[trigger] self.values()[i]).0,
            self.entries()[self.done()].0,
        ) by {
            assert(self.entries()[i].0 == self.values()[i].0);
        }
    }

    fn accept(&mut self, value: String)
        requires
            old(self).wf(),
            old(self).done() < old(self).entries().len(),
            resolves(old(self).entries()[old(self).done()].1, value@),
        ensures
            final(self).wf(),
            final(self).server() == old(self).server(),
            final(self).entries() == old(self).entries(),
            final(self).done() == old(self).done() + 1,
            final(self).values() == old(self).values().push(
                (old(self).entries()[old(self).done()].0, value@),
            ),
    {
        proof {
            self.lemma_before();
        }
        let _count: usize = self.env.len();
        let key = self.env.key_at(self.next).to_owned();
        self.resolved.insert(key, value);
        self.next = self.next + 1;
        assert forall|i: int| 0 <= i < self.done() implies (#[trigger] self.values()[i]).0
            == self.entries()[i].0 && resolves(self.entries()[i].1, self.values()[i].1) by {
            if i < old(self).done() {
                assert(self.values()[i] == old(self).values()[i]);
            }
        }
    }

    /// Pass the plain values through, up to the next secret: its account, or
    /// nothing when every entry is resolved.
    pub fn next_account(&mut self) -> (r: Option<String>)
        requires
            old(self).wf(),
        ensures
            final(self).wf(),
            final(self).server() == old(self).server(),
            final(self).entries() == old(self).entries(),
            old(self).done() <= final(self).done(),
            final(self).values().take(old(self).done()) == old(self).values(),
            forall|i: int|
                old(self).done() <= i < final(self).done() ==> (
                #[trigger] final(self).entries()[i]).1 is Plain,
            match r {
                Some(account) => {
                    &&& final(self).done() < final(self).entries().len()
                    &&& final(self).entries()[final(self).done()].1 is Secret
                    &&& account@ == spec_account(
                        final(self).server(),
                        final(self).entries()[final(self).done()].0,
                    )
                },
                None => final(self).done() == final(self).entries().len(),
            },
    {
        let count: usize = self.env.len();
        let ghost before = *self;
        assert(self.values().take(self.done()) =~= self.values());
        while self.next < count
            invariant
                before == *old(self),
                self.wf(),
                count == self.entries().len(),
                self.next == self.done(),
                self.server() == before.server(),
                self.entries() == before.entries(),
                before.wf(),
                before.done() <= self.done(),
                self.values().take(before.done()) == before.values(),
                forall|i: int|
                    before.done() <= i < self.done() ==> (#[trigger] self.entries()[i]).1 is Plain,
            decreases count - self.next,
        {
            let plain = match self.env.value_at(self.next) {
                EnvValue::Plain { value } => Some(value.clone()),
                EnvValue::Secret => None,
            };
            match plain {
                Some(value) => {
                    let ghost held = self.values();
                    self.accept(value);
                    assert(self.values().take(before.done()) =~= held.take(before.done()));
                },
                None => {
                    return Some(account(self.id, self.env.key_at(self.next)));
                },
            }
        }
        None
    }

    /// Take the store's reply for the secret that is due. A missing secret
    /// fails the start: a server must never silently launch without
    /// credentials it was configured to have.
    pub fn fetched(&mut self, reply: Result<String, KeyringFault>) -> (r: AppResult<()>)
        requires
            old(self).wf(),
            old(self).done() < old(self).entries().len(),
            old(self).entries()[old(self).done()].1 is Secret,
        ensures
            final(self).wf(),
            final(self).server() == old(self).server(),
            final(self).entries() == old(self).entries(),
            match reply {
                Ok(value) => {
                    &&& r is Ok
                    &&& final(self).done() == old(self).done() + 1
                    &&& final(self).values() == old(self).values().push(
                        (old(self).entries()[old(self).done()].0, value@),
                    )
                },
                Err(fault) => {
                    &&& r is Err
                    &&& r->Err_0@ == ErrorView::Keyring(fault.text())
                    &&& final(self).done() == old(self).done()
                    &&& final(self).values() == old(self).values()
                },
            },
    {
        match get_secret(reply) {
            Ok(value) => {
                self.accept(value);
                Ok(())
            },
            Err(e) => Err(e),
        }
    }

    /// The resolved environment: every variable under its name.
    pub fn finish(self) -> (r: StrMap<String>)
        requires
            self.wf(),
            self.done() == self.entries().len(),
        ensures
            r.items() == self.values(),
            r.items().len() == self.entries().len(),
            forall|i: int|
                0 <= i < r.items().len() ==> (#[trigger] r.items()[i]).0 == self.entries()[i].0
                    && resolves(self.entries()[i].1, r.items()[i].1),
    {
        self.resolved
    }
}

/// Take up the environment of a server, to be resolved just-in-time at spawn.
pub fn resolve_env(record: &ServerRecord) -> (r: EnvResolver)
    ensures
        r.wf(),
        r.server() == record@.id,
        r.entries() == record.env.items(),
        r.done() == 0,
{
    let env = record.env.duplicate();
    let _count: usize = env.len();
    EnvResolver { id: record.id, env, next: 0, resolved: StrMap::new() }
}

/// The keys of an environment that are marked secret, in order.
pub open spec fn secret_keys_of(items: Seq<(Seq<char>, EnvView)>) -> Seq<Seq<char>>
    decreases items.len(),
{
    if items.len() == 0 {
        Seq::empty()
    } else if items.last().1 is Secret {
        secret_keys_of(items.drop_last()).push(items.last().0)
    } else {
        secret_keys_of(items.drop_last())
    }
}

/// The keys of a server's environment that are marked secret.
pub fn secret_keys(record: &ServerRecord) -> (r: Vec<String>)
    ensures
        text::texts(r@) == secret_keys_of(record.env.items()),
{
    let ghost items = record.env.items();
    let count: usize = record.env.len();
    let mut keys: Vec<String> = Vec::new();
    let mut i: usize = 0;
    assert(text::texts(keys@) =~= Seq::empty());
    while i < count
        invariant
            i <= count,
            count == items.len(),
            items == record.env.items(),
            text::texts(keys@) == secret_keys_of(items.take(i as int)),
        decreases count - i,
    {
        assert(items.take(i + 1).drop_last() =~= items.take(i as int));
        assert(items.take(i + 1).last() == items[i as int]);
        if record.env.value_at(i).is_secret() {
            let ghost before = keys@;
            let key = record.env.key_at(i).to_owned();
            keys.push(key);
            assert(text::texts(keys@) =~= text::texts(before).push(key@));
        }
        i = i + 1;
    }
    assert(items.take(items.len() as int) =~= items);
    keys
}

/// The entries to delete for the given keys, in order. Best-effort: a flaky
/// credential store must not block its caller, so each is deleted whatever
/// became of the others.
pub fn delete_keys_best_effort(id: ServerId, keys: &Vec<String>) -> (r: Vec<String>)
    ensures
        text::texts(r@) == text::texts(keys@).map_values(|k: Seq<char>| spec_account(id, k)),
{
    let ghost want = text::texts(keys@).map_values(|k: Seq<char>| spec_account(id, k));
    let mut out: Vec<String> = Vec::new();
    let mut i: usize = 0;
    while i < keys.len()
        invariant
            i <= keys.len(),
            want == text::texts(keys@).map_values(|k: Seq<char>| spec_account(id, k)),
            text::texts(out@) =~= want.take(i as int),
        decreases keys.len() - i,
    {
        let ghost before = out@;
        let account = account(id, keys[i].as_str());
        out.push(account);
        assert(text::texts(out@) =~= text::texts(before).push(account@));
        assert(want[i as int] == account@);
        assert(want.take(i + 1) =~= want.take(i as int).push(account@));
        i = i + 1;
    }
    assert(want.take(want.len() as int) =~= want);
    out
}

/// The entries to delete with a server that is being removed: one for every
/// secret-marked key.
pub fn delete_server_secrets(record: &ServerRecord) -> (r: Vec<String>)
    ensures
        text::texts(r@) == secret_keys_of(record.env.items()).map_values(
            |k: Seq<char>| spec_account(record@.id, k),
        ),
{
    let keys = secret_keys(record);
    delete_keys_best_effort(record.id, &keys)
}

/// Where a migration stands.
#[derive(Clone, Copy, Debug, PartialEq, Eq, Structural)]
pub enum Phase {
    /// Is there an entry under the id already?
    Probe,
    /// Is there one under the name?
    Fetch,
    /// The value is on its way to the entry under the id.
    Store,
    /// The entry under the name goes.
    Delete,
}

/// What the credential store is asked.
pub enum KeyringAction {
    Get(String),
    Put(String, String),
    Delete(String),
    /// Nothing more; how it ended.
    Finish(AppResult<()>),
}

#[verifier::ext_equal]
pub enum ActionView {
    Get(Seq<char>),
    Put(Seq<char>, Seq<char>),
    Delete(Seq<char>),
    Finish(Result<(), ErrorView>),
}

impl View for KeyringAction {
    type V = ActionView;

    open spec fn view(&self) -> ActionView {
        match *self {
            KeyringAction::Get(a) => ActionView::Get(a@),
            KeyringAction::Put(a, v) => ActionView::Put(a@, v@),
            KeyringAction::Delete(a) => ActionView::Delete(a@),
            KeyringAction::Finish(Ok(_)) => ActionView::Finish(Ok(())),
            KeyringAction::Finish(Err(e)) => ActionView::Finish(Err(e@)),
        }
    }
}

/// What the credential store answers: a value to a `Get`, the empty text to
/// anything else.
#[verifier::ext_equal]
pub enum ReplyView {
    Done(Seq<char>),
    NoEntry(Seq<char>),
    Other(Seq<char>),
}

/// The move of one entry from its legacy account to the account under the id.
pub struct Migration {
    pub id: ServerId,
    pub key: String,
    pub account: String,
    pub legacy: String,
    pub phase: Phase,
}

#[verifier::ext_equal]
pub struct MigrationView {
    pub id: ServerId,
    pub key: Seq<char>,
    pub account: Seq<char>,
    pub legacy: Seq<char>,
    pub phase: Phase,
}

impl View for Migration {
    type V = MigrationView;

    open spec fn view(&self) -> MigrationView {
        MigrationView {
            id: self.id,
            key: self.key@,
            account: self.account@,
            legacy: self.legacy@,
            phase: self.phase,
        }
    }
}

impl MigrationView {
    /// The next phase and action after a reply.
    pub open spec fn step(self, reply: ReplyView) -> (MigrationView, ActionView) {
        match self.phase {
            Phase::Probe => match reply {
                // Already migrated; clear any stale legacy copy.
                ReplyView::Done(_) => (
                    MigrationView { phase: Phase::Delete, ..self },
                    ActionView::Delete(self.legacy),
                ),
                _ => (
                    MigrationView { phase: Phase::Fetch, ..self },
                    ActionView::Get(self.legacy),
                ),
            },
            Phase::Fetch => match reply {
                ReplyView::Done(value) => (
                    MigrationView { phase: Phase::Store, ..self },
                    ActionView::Put(self.account, value),
                ),
                ReplyView::NoEntry(_) => (self, ActionView::Finish(Ok(()))),
                ReplyView::Other(m) => (self, ActionView::Finish(Err(ErrorView::Keyring(m)))),
            },
            Phase::Store => match reply {
                ReplyView::Done(_) => (
                    MigrationView { phase: Phase::Delete, ..self },
                    ActionView::Delete(self.legacy),
                ),
                ReplyView::NoEntry(m) => (self, ActionView::Finish(Err(ErrorView::Keyring(m)))),
                ReplyView::Other(m) => (self, ActionView::Finish(Err(ErrorView::Keyring(m)))),
            },
            Phase::Delete => match reply {
                ReplyView::Other(m) => (self, ActionView::Finish(Err(ErrorView::Keyring(m)))),
                _ => (self, ActionView::Finish(Ok(()))),
            },
        }
    }
}

/// A reply of the store as its model.
pub open spec fn reply_view(reply: Result<String, KeyringFault>) -> ReplyView {
    match reply {
        Ok(value) => ReplyView::Done(value@),
        Err(KeyringFault::NoEntry(m)) => ReplyView::NoEntry(m@),
        Err(KeyringFault::Other(m)) => ReplyView::Other(m@),
    }
}

impl Migration {
    /// The first thing to ask.
    pub fn begin(&self) -> (r: KeyringAction)
        ensures
            r@ == ActionView::Get(self@.account),
    {
        KeyringAction::Get(self.account.clone())
    }

    /// Take the store's reply to the last action; the next one.
    pub fn migrate_one(&mut self, reply: Result<String, KeyringFault>) -> (r: KeyringAction)
        ensures
            (final(self)@, r@) == old(self)@.step(reply_view(reply)),
    {
        match self.phase {
            Phase::Probe => match reply {
                Ok(_) => {
                    self.phase = Phase::Delete;
                    KeyringAction::Delete(self.legacy.clone())
                },
                Err(_) => {
                    self.phase = Phase::Fetch;
                    KeyringAction::Get(self.legacy.clone())
                },
            },
            Phase::Fetch => match reply {
                Ok(value) => {
                    self.phase = Phase::Store;
                    KeyringAction::Put(self.account.clone(), value)
                },
                Err(KeyringFault::NoEntry(_)) => KeyringAction::Finish(Ok(())),
                Err(KeyringFault::Other(m)) => KeyringAction::Finish(Err(AppError::Keyring(m))),
            },
            Phase::Store => match reply {
                Ok(_) => {
                    self.phase = Phase::Delete;
                    KeyringAction::Delete(self.legacy.clone())
                },
                Err(fault) => KeyringAction::Finish(Err(fault.into_error())),
            },
            Phase::Delete => match reply {
                Err(KeyringFault::Other(m)) => KeyringAction::Finish(Err(AppError::Keyring(m))),
                _ => KeyringAction::Finish(Ok(())),
            },
        }
    }
}

/// The moves that one record may need: one for every secret-marked key.
pub open spec fn record_migrations(record: RecordView, keys: Seq<Seq<char>>) -> Seq<
    MigrationView,
> {
    keys.map_values(
        |k: Seq<char>|
            MigrationView {
                id: record.id,
                key: k,
                account: spec_account(record.id, k),
                legacy: spec_legacy_account(record.server.name, k),
                phase: Phase::Probe,
            },
    )
}

/// The moves that a list of records may need, in order.
pub open spec fn all_migrations(records: Seq<ServerRecord>) -> Seq<MigrationView>
    decreases records.len(),
{
    if records.len() == 0 {
        Seq::empty()
    } else {
        all_migrations(records.drop_last()) + record_migrations(
            records.last()@,
            secret_keys_of(records.last().env.items()),
        )
    }
}

/// The one-time move of legacy name-keyed entries (`<name>/<key>`) to the id
/// scheme: what to probe, in order. Best-effort and idempotent: a rerun finds
/// the id entry already present (or nothing legacy to move).
pub fn migrate_name_keyed_secrets(records: &Vec<ServerRecord>) -> (r: Vec<Migration>)
    ensures
        r@.map_values(|m: Migration| m@) == all_migrations(records@),
{
    let ghost f = |m: Migration| m@;
    let mut out: Vec<Migration> = Vec::new();
    let mut i: usize = 0;
    assert(out@.map_values(f) =~= Seq::empty());
    while i < records.len()
        invariant
            i <= records.len(),
            f == (|m: Migration| m@),
            out@.map_values(f) == all_migrations(records@.take(i as int)),
        decreases records.len() - i,
    {
        let record = &records[i];
        let ghost now = records@.take(i + 1);
        assert(now.drop_last() =~= records@.take(i as int));
        assert(now.last() == *record);
        let keys = secret_keys(record);
        let ghost names = text::texts(keys@);
        let ghost head = all_migrations(records@.take(i as int));
        let ghost tail = record_migrations(record@, names);
        let mut j: usize = 0;
        assert(head + tail.take(0) =~= head);
        while j < keys.len()
            invariant
                j <= keys.len(),
                f == (|m: Migration| m@),
                names == text::texts(keys@),
                tail == record_migrations(record@, names),
                out@.map_values(f) == head + tail.take(j as int),
            decreases keys.len() - j,
        {
            let key = keys[j].clone();
            let legacy = legacy_account(record.name.as_str(), key.as_str());
            let target = account(record.id, key.as_str());
            let ghost before = out@;
            let item = Migration {
                id: record.id,
                key,
                account: target,
                legacy,
                phase: Phase::Probe,
            };
            out.push(item);
            assert(names[j as int] == item@.key);
            assert(tail[j as int] == item@);
            assert(out@.map_values(f) =~= before.map_values(f).push(item@));
            assert(head + tail.take(j + 1) =~= (head + tail.take(j as int)).push(item@));
            j = j + 1;
        }
        assert(tail.take(tail.len() as int) =~= tail);
        i = i + 1;
    }
    assert(records@.take(records@.len() as int) =~= records@);
    out
}

/// A credential store that does as it is asked.
pub open spec fn store_answers(
    store: Map<Seq<char>, Seq<char>>,
    action: ActionView,
    missing: Seq<char>,
) -> (Map<Seq<char>, Seq<char>>, ReplyView) {
    match action {
        ActionView::Get(a) => (
            store,
            if store.contains_key(a) {
                ReplyView::Done(store[a])
            } else {
                ReplyView::NoEntry(missing)
            },
        ),
        ActionView::Put(a, v) => (store.insert(a, v), ReplyView::Done(Seq::empty())),
        ActionView::Delete(a) => (
            store.remove(a),
            if store.contains_key(a) {
                ReplyView::Done(Seq::empty())
            } else {
                ReplyView::NoEntry(missing)
            },
        ),
        ActionView::Finish(_) => (store, ReplyView::Done(Seq::empty())),
    }
}

/// The store after at most `fuel` exchanges, and how the migration ended.
pub open spec fn migrate_on(
    store: Map<Seq<char>, Seq<char>>,
    m: MigrationView,
    action: ActionView,
    missing: Seq<char>,
    fuel: nat,
) -> (Map<Seq<char>, Seq<char>>, Option<Result<(), ErrorView>>)
    decreases fuel,
{
    match action {
        ActionView::Finish(r) => (store, Some(r)),
        _ => if fuel == 0 {
            (store, None)
        } else {
            let (store, reply) = store_answers(store, action, missing);
            let (m, action) = m.step(reply);
            migrate_on(store, m, action, missing, (fuel - 1) as nat)
        },
    }
}

/// What migrating one entry makes of a store.
pub open spec fn migrated(
    store: Map<Seq<char>, Seq<char>>,
    account: Seq<char>,
    legacy: Seq<char>,
) -> Map<Seq<char>, Seq<char>> {
    if store.contains_key(account) {
        store.remove(legacy)
    } else if store.contains_key(legacy) {
        store.insert(account, store[legacy]).remove(legacy)
    } else {
        store
    }
}

/// A migration takes at most four exchanges with a store that does as it is
/// asked, and moves the entry.
pub proof fn law_migration_moves_the_entry(
    store: Map<Seq<char>, Seq<char>>,
    m: MigrationView,
    missing: Seq<char>,
)
    requires
        m.phase == Phase::Probe,
    ensures
        migrate_on(store, m, ActionView::Get(m.account), missing, 4) == (
            migrated(store, m.account, m.legacy),
            Some(Ok::<(), ErrorView>(())),
        ),
{
    reveal_with_fuel(migrate_on, 5);
}

/// A migrated entry is under the id with the value it had, the legacy entry is
/// gone, every other entry is as it was, and migrating again changes nothing.
/// A name whose legacy account is the account under the id is left out.
pub proof fn law_migration_is_idempotent(
    store: Map<Seq<char>, Seq<char>>,
    account: Seq<char>,
    legacy: Seq<char>,
)
    requires
        account != legacy,
    ensures
        ({
            let after = migrated(store, account, legacy);
            &&& migrated(after, account, legacy) == after
            &&& !after.contains_key(legacy)
            &&& store.contains_key(account) ==> after.contains_key(account) && after[account]
                == store[account]
            &&& !store.contains_key(account) && store.contains_key(legacy) ==> after.contains_key(
                account,
            ) && after[account] == store[legacy]
            &&& forall|k: Seq<char>|
                k != account && k != legacy ==> after.contains_key(k) == store.contains_key(k) && (
                store.contains_key(k) ==> #[trigger] after[k] == store[k])
        }),
{
    let after = migrated(store, account, legacy);
    assert(migrated(after, account, legacy) =~= after);
}

/// What carrying out a list of moves, one after the other, makes of a store that
/// does as it is asked.
pub open spec fn migration_run(
    store: Map<Seq<char>, Seq<char>>,
    moves: Seq<MigrationView>,
    missing: Seq<char>,
) -> Map<Seq<char>, Seq<char>>
    decreases moves.len(),
{
    if moves.len() == 0 {
        store
    } else {
        let m = moves.last();
        let before = migration_run(store, moves.drop_last(), missing);
        migrate_on(before, m, ActionView::Get(m.account), missing, 4).0
    }
}

/// All moves are still to be begun.
pub open spec fn unbegun(moves: Seq<MigrationView>) -> bool {
    forall|i: int| 0 <= i < moves.len() ==> (#[trigger] moves[i]).phase == Phase::Probe
}

/// No legacy account of a move is the account under an id of a move.
pub open spec fn apart(moves: Seq<MigrationView>) -> bool {
    forall|i: int, j: int|
        0 <= i < moves.len() && 0 <= j < moves.len() ==> (#[trigger] moves[i]).legacy != (
        #[trigger] moves[j]).account
}

proof fn lemma_migrations_are_unbegun(records: Seq<ServerRecord>)
    ensures
        unbegun(all_migrations(records)),
    decreases records.len(),
{
    if records.len() > 0 {
        lemma_migrations_are_unbegun(records.drop_last());
    }
}

proof fn lemma_run_clears_legacy_entries(
    store: Map<Seq<char>, Seq<char>>,
    moves: Seq<MigrationView>,
    missing: Seq<char>,
)
    requires
        unbegun(moves),
        apart(moves),
    ensures
        forall|i: int|
            0 <= i < moves.len() ==> !migration_run(store, moves, missing).contains_key(
                (#[trigger] moves[i]).legacy,
            ),
    decreases moves.len(),
{
    if moves.len() > 0 {
        let rest = moves.drop_last();
        let m = moves.last();
        let before = migration_run(store, rest, missing);
        lemma_run_clears_legacy_entries(store, rest, missing);
        law_migration_moves_the_entry(before, m, missing);
        assert forall|i: int| 0 <= i < moves.len() implies !migration_run(
            store,
            moves,
            missing,
        ).contains_key((#[trigger] moves[i]).legacy) by {
            assert(moves[i].legacy != m.account);
            if i < rest.len() {
                assert(rest[i] == moves[i]);
            }
        }
    }
}

proof fn lemma_run_without_legacy_entries(
    store: Map<Seq<char>, Seq<char>>,
    moves: Seq<MigrationView>,
    missing: Seq<char>,
)
    requires
        unbegun(moves),
        forall|i: int| 0 <= i < moves.len() ==> !store.contains_key((#[trigger] moves[i]).legacy),
    ensures
        migration_run(store, moves, missing) == store,
    decreases moves.len(),
{
    if moves.len() > 0 {
        let m = moves.last();
        lemma_run_without_legacy_entries(store, moves.drop_last(), missing);
        law_migration_moves_the_entry(store, m, missing);
        assert(store.remove(m.legacy) =~= store);
    }
}

/// The whole migration is idempotent: after one run over a list of records no
/// legacy entry of theirs is left, and a second run leaves the store as it was.
/// Lists are left out where the legacy account of one entry is the account under
/// an id of another.
pub proof fn law_migrating_all_is_idempotent(
    store: Map<Seq<char>, Seq<char>>,
    records: Seq<ServerRecord>,
    missing: Seq<char>,
)
    requires
        apart(all_migrations(records)),
    ensures
        ({
            let moves = all_migrations(records);
            let after = migration_run(store, moves, missing);
            &&& migration_run(after, moves, missing) == after
            &&& forall|i: int|
                0 <= i < moves.len() ==> !after.contains_key((#[trigger] moves[i]).legacy)
        }),
{
    let moves = all_migrations(records);
    lemma_migrations_are_unbegun(records);
    lemma_run_clears_legacy_entries(store, moves, missing);
    lemma_run_without_legacy_entries(migration_run(store, moves, missing), moves, missing);
}

/// The keys that are deleted with a server, and moved at a migration, are those
/// that its environment marks as secret: every one of them, however many there
/// are, each once and in order, and no other.
pub proof fn law_the_secret_keys_are_the_marked_ones(
    items: Seq<(Seq<char>, EnvView)>,
    k: Seq<char>,
)
    requires
        strmap::ascending(items),
    ensures
        secret_keys_of(items).contains(k) <==> strmap::keyed(items).contains_key(k)
            && strmap::keyed(items)[k] == EnvView::Secret,
        secret_keys_of(items).contains(k) <==> exists|i: int|
            0 <= i < items.len() && #[trigger] items[i] == (k, EnvView::Secret),
        forall|i: int, j: int|
            0 <= i < j < secret_keys_of(items).len() ==> text::text_lt(
                #[trigger] secret_keys_of(items)[i],
                #[trigger] secret_keys_of(items)[j],
            ),
        secret_keys_of(items).no_duplicates(),
    decreases items.len(),
{
    strmap::lemma_keyed(items);
    lemma_secret_keys(items, k);
    lemma_secret_keys_ascend(items);
    if strmap::keyed(items).contains_key(k) {
        let i = choose|i: int| 0 <= i < items.len() && (#[trigger] items[i]).0 == k;
        assert(strmap::keyed(items)[items[i].0] == items[i].1);
        assert(items[i] == (k, items[i].1));
    }
    if secret_keys_of(items).contains(k) {
        let i = choose|i: int|
            0 <= i < items.len() && #[trigger] items[i] == (k, EnvView::Secret);
        assert(strmap::has_key(items, k));
        assert(items[i].0 == k);
    }
    let keys = secret_keys_of(items);
    assert forall|i: int, j: int| 0 <= i < keys.len() && 0 <= j < keys.len() && i != j implies keys[i]
        != keys[j] by {
        text::lemma_text_lt_irreflexive(keys[i]);
        if i < j {
            assert(text::text_lt(keys[i], keys[j]));
        } else {
            assert(text::text_lt(keys[j], keys[i]));
        }
    }
}

proof fn lemma_secret_keys(items: Seq<(Seq<char>, EnvView)>, k: Seq<char>)
    ensures
        secret_keys_of(items).contains(k) <==> exists|i: int|
            0 <= i < items.len() && #[trigger] items[i] == (k, EnvView::Secret),
    decreases items.len(),
{
    if items.len() > 0 {
        let rest = items.drop_last();
        let last = items.len() - 1;
        lemma_secret_keys(rest, k);
        let head = secret_keys_of(rest);
        let all = secret_keys_of(items);
        assert(items.last() == items[last]);
        if all.contains(k) {
            let n = choose|n: int| 0 <= n < all.len() && all[n] == k;
            if n < head.len() {
                assert(head[n] == k);
                assert(head.contains(k));
                let i = choose|i: int|
                    0 <= i < rest.len() && #[trigger] rest[i] == (k, EnvView::Secret);
                assert(items[i] == (k, EnvView::Secret));
            } else {
                assert(items[last] == (k, EnvView::Secret));
            }
        }
        if exists|i: int| 0 <= i < items.len() && #[trigger] items[i] == (k, EnvView::Secret) {
            let i = choose|i: int|
                0 <= i < items.len() && #[trigger] items[i] == (k, EnvView::Secret);
            if i < last {
                assert(rest[i] == (k, EnvView::Secret));
                let n = choose|n: int| 0 <= n < head.len() && head[n] == k;
                assert(all[n] == k);
            } else {
                assert(all[all.len() - 1] == k);
            }
        }
    } else {
        assert(secret_keys_of(items).len() == 0);
    }
}

proof fn lemma_secret_keys_ascend(items: Seq<(Seq<char>, EnvView)>)
    requires
        strmap::ascending(items),
    ensures
        forall|i: int, j: int|
            0 <= i < j < secret_keys_of(items).len() ==> text::text_lt(
                #[trigger] secret_keys_of(items)[i],
                #[trigger] secret_keys_of(items)[j],
            ),
    decreases items.len(),
{
    if items.len() > 0 {
        let rest = items.drop_last();
        let last = items.len() - 1;
        assert forall|a: int, b: int| 0 <= a < b < rest.len() implies text::text_lt(
            #[trigger] rest[a].0,
            #[trigger] rest[b].0,
        ) by {
            assert(items[a] == rest[a] && items[b] == rest[b]);
        }
        lemma_secret_keys_ascend(rest);
        let head = secret_keys_of(rest);
        let all = secret_keys_of(items);
        assert forall|i: int, j: int| 0 <= i < j < all.len() implies text::text_lt(
            #[trigger] all[i],
            #[trigger] all[j],
        ) by {
            assert(all[i] == head[i]);
            if j < head.len() {
                assert(all[j] == head[j]);
            } else {
                assert(head.contains(head[i]));
                lemma_secret_keys(rest, head[i]);
                let a = choose|a: int|
                    0 <= a < rest.len() && #[trigger] rest[a] == (head[i], EnvView::Secret);
                assert(items[a] == rest[a]);
                assert(text::text_lt(items[a].0, items[last].0));
            }
        }
    }
}

/// An account is the server's id, a slash and the key; a legacy account has the
/// server's name in place of the id.
pub proof fn law_accounts_name_server_and_key(id: ServerId, name: Seq<char>, key: Seq<char>)
    ensures
        spec_account(id, key) == text::decimal(id as int) + seq!['/'] + key,
        spec_legacy_account(name, key) == name + seq!['/'] + key,
{
    reveal_strlit("/");
    assert("/"@ =~= seq!['/']);
}

/// With a server go the entries of all its marked keys, and no other: an account
/// is deleted exactly where it is the server's account of a key that its
/// environment marks as secret.
pub proof fn law_removal_deletes_every_secret(
    record: ServerRecord,
    deleted: Vec<String>,
    account: Seq<char>,
)
    requires
        strmap::ascending(record.env.items()),
        call_ensures(delete_server_secrets, (&record,), deleted),
    ensures
        text::texts(deleted@).contains(account) <==> exists|k: Seq<char>|
            record.env@.contains_key(k) && record.env@[k] == EnvView::Secret
                && #[trigger] spec_account(record.id, k) == account,
{
    let items = record.env.items();
    let keys = secret_keys_of(items);
    let all = text::texts(deleted@);
    if all.contains(account) {
        let n = choose|n: int| 0 <= n < all.len() && all[n] == account;
        assert(spec_account(record.id, keys[n]) == account);
        assert(keys.contains(keys[n]));
        law_the_secret_keys_are_the_marked_ones(items, keys[n]);
    }
    if exists|k: Seq<char>|
        record.env@.contains_key(k) && record.env@[k] == EnvView::Secret && #[trigger] spec_account(
            record.id,
            k,
        ) == account {
        let k = choose|k: Seq<char>|
            record.env@.contains_key(k) && record.env@[k] == EnvView::Secret
                && #[trigger] spec_account(record.id, k) == account;
        law_the_secret_keys_are_the_marked_ones(items, k);
        let n = choose|n: int| 0 <= n < keys.len() && keys[n] == k;
        assert(all[n] == account);
    }
}

/// A migration takes up every marked key of every record, from the account under
/// the record's name to the account under its id, and nothing else.
pub proof fn law_every_secret_is_migrated(records: Seq<ServerRecord>, m: MigrationView)
    ensures
        all_migrations(records).contains(m) <==> exists|r: int, i: int|
            0 <= r < records.len() && 0 <= i < records[r].env.items().len()
                && #[trigger] records[r].env.items()[i] == (m.key, EnvView::Secret) && m == (
            MigrationView {
                id: records[r].id,
                key: m.key,
                account: text::decimal(records[r].id as int) + seq!['/'] + m.key,
                legacy: records[r].name@ + seq!['/'] + m.key,
                phase: Phase::Probe,
            }),
    decreases records.len(),
{
    if records.len() > 0 {
        let rest = records.drop_last();
        let last = records.len() - 1;
        let record = records[last];
        assert(records.last() == record);
        let items = record.env.items();
        let keys = secret_keys_of(items);
        let head = all_migrations(rest);
        let tail = record_migrations(record@, keys);
        let all = all_migrations(records);
        law_every_secret_is_migrated(rest, m);
        lemma_secret_keys(items, m.key);
        law_accounts_name_server_and_key(record.id, record.name@, m.key);
        if all.contains(m) {
            let n = choose|n: int| 0 <= n < all.len() && all[n] == m;
            if n < head.len() {
                assert(head[n] == m);
                assert(head.contains(m));
                let (r, i) = choose|r: int, i: int|
                    0 <= r < rest.len() && 0 <= i < rest[r].env.items().len()
                        && #[trigger] rest[r].env.items()[i] == (m.key, EnvView::Secret) && m == (
                    MigrationView {
                        id: rest[r].id,
                        key: m.key,
                        account: text::decimal(rest[r].id as int) + seq!['/'] + m.key,
                        legacy: rest[r].name@ + seq!['/'] + m.key,
                        phase: Phase::Probe,
                    });
                assert(records[r] == rest[r]);
                assert(records[r].env.items()[i] == (m.key, EnvView::Secret));
            } else {
                let at = n - head.len();
                assert(tail[at] == m);
                assert(m.key == keys[at]);
                assert(keys.contains(m.key));
                let i = choose|i: int|
                    0 <= i < items.len() && #[trigger] items[i] == (m.key, EnvView::Secret);
                assert(records[last].env.items()[i] == (m.key, EnvView::Secret));
            }
        }
        if exists|r: int, i: int|
            0 <= r < records.len() && 0 <= i < records[r].env.items().len()
                && #[trigger] records[r].env.items()[i] == (m.key, EnvView::Secret) && m == (
            MigrationView {
                id: records[r].id,
                key: m.key,
                account: text::decimal(records[r].id as int) + seq!['/'] + m.key,
                legacy: records[r].name@ + seq!['/'] + m.key,
                phase: Phase::Probe,
            }) {
            let (r, i) = choose|r: int, i: int|
                0 <= r < records.len() && 0 <= i < records[r].env.items().len()
                    && #[trigger] records[r].env.items()[i] == (m.key, EnvView::Secret) && m == (
                MigrationView {
                    id: records[r].id,
                    key: m.key,
                    account: text::decimal(records[r].id as int) + seq!['/'] + m.key,
                    legacy: records[r].name@ + seq!['/'] + m.key,
                    phase: Phase::Probe,
                });
            if r < last {
                assert(rest[r] == records[r]);
                assert(rest[r].env.items()[i] == (m.key, EnvView::Secret));
                let n = choose|n: int| 0 <= n < head.len() && head[n] == m;
                assert(all[n] == m);
            } else {
                assert(items[i] == (m.key, EnvView::Secret));
                let at = choose|at: int| 0 <= at < keys.len() && keys[at] == m.key;
                assert(tail[at] == m);
                assert(all[head.len() + at] == m);
            }
        }
    } else {
        assert(all_migrations(records).len() == 0);
    }
}

/// A migration that meets trouble loses nothing: the legacy entry is deleted
/// only behind an entry under the id, be it found there or stored with the very
/// value of the legacy entry, and trouble in between is reported with what the
/// store said.
pub proof fn law_trouble_loses_no_secret(m: MigrationView, value: Seq<char>, said: Seq<char>)
    ensures
        m.phase == Phase::Probe ==> {
            &&& m.step(ReplyView::Done(value)).1 == ActionView::Delete(m.legacy)
            &&& m.step(ReplyView::Done(value)).0.phase == Phase::Delete
            &&& m.step(ReplyView::NoEntry(said)).1 == ActionView::Get(m.legacy)
            &&& m.step(ReplyView::NoEntry(said)).0.phase == Phase::Fetch
            &&& m.step(ReplyView::Other(said)).1 == ActionView::Get(m.legacy)
            &&& m.step(ReplyView::Other(said)).0.phase == Phase::Fetch
        },
        m.phase == Phase::Fetch ==> {
            &&& m.step(ReplyView::Done(value)).1 == ActionView::Put(m.account, value)
            &&& m.step(ReplyView::Done(value)).0.phase == Phase::Store
            &&& m.step(ReplyView::NoEntry(said)).1 == ActionView::Finish(Ok(()))
            &&& m.step(ReplyView::Other(said)).1 == ActionView::Finish(
                Err(ErrorView::Keyring(said)),
            )
        },
        m.phase == Phase::Store ==> {
            &&& m.step(ReplyView::Done(value)).1 == ActionView::Delete(m.legacy)
            &&& m.step(ReplyView::Done(value)).0.phase == Phase::Delete
            &&& m.step(ReplyView::NoEntry(said)).1 == ActionView::Finish(
                Err(ErrorView::Keyring(said)),
            )
            &&& m.step(ReplyView::Other(said)).1 == ActionView::Finish(
                Err(ErrorView::Keyring(said)),
            )
        },
        m.phase == Phase::Delete ==> {
            &&& m.step(ReplyView::Done(value)).1 == ActionView::Finish(Ok(()))
            &&& m.step(ReplyView::NoEntry(said)).1 == ActionView::Finish(Ok(()))
            &&& m.step(ReplyView::Other(said)).1 == ActionView::Finish(
                Err(ErrorView::Keyring(said)),
            )
        },
        forall|reply: ReplyView| {
            let next = (#[trigger] m.step(reply)).0;
            next.account == m.account && next.legacy == m.legacy && next.id == m.id && next.key
                == m.key
        },
{
}

/// A plain variable reaches the process with the very value that is configured,
/// under its own name, in the place it has among the variables.
pub proof fn law_plain_values_reach_the_process(resolver: EnvResolver, i: int, value: Seq<char>)
    requires
        resolver.wf(),
        0 <= i < resolver.done(),
        resolver.entries()[i].1 == (EnvView::Plain { value }),
    ensures
        resolver.values()[i] == (resolver.entries()[i].0, value),
{
    assert(resolver.values()[i].0 == resolver.entries()[i].0);
}

/// Only an absent entry may be deleted in vain: that it is not there is what was
/// asked for. Every other trouble with the store is reported in its own words,
/// and an entry that is fetched comes back as it is.
pub proof fn law_the_store_is_taken_at_its_word(
    value: String,
    said: String,
    got: AppResult<String>,
    missing: AppResult<String>,
    gone: AppResult<()>,
    stuck: AppResult<()>,
)
    requires
        call_ensures(get_secret, (Ok(value),), got),
        call_ensures(get_secret, (Err(KeyringFault::NoEntry(said)),), missing),
        call_ensures(delete_secret, (Err(KeyringFault::NoEntry(said)),), gone),
        call_ensures(delete_secret, (Err(KeyringFault::Other(said)),), stuck),
    ensures
        got matches Ok(v) && v@ == value@,
        missing matches Err(e) && e@ == ErrorView::Keyring(said@),
        gone is Ok,
        stuck matches Err(e) && e@ == ErrorView::Keyring(said@),
{
}

/// A secret is fetched under the server's own id and the variable's own name,
/// and reaches the process with the very value that the store gave; where the
/// store gives none, the start fails in the store's own words.
pub proof fn law_secrets_are_fetched_by_id_and_name(
    asking: &mut EnvResolver,
    account: String,
    fetching: &mut EnvResolver,
    value: String,
    good: AppResult<()>,
    failing: &mut EnvResolver,
    fault: KeyringFault,
    bad: AppResult<()>,
)
    requires
        old(asking).wf(),
        call_ensures(EnvResolver::next_account, (asking,), Some(account)),
        old(fetching).wf(),
        old(fetching).done() < old(fetching).entries().len(),
        old(fetching).entries()[old(fetching).done()].1 is Secret,
        call_ensures(EnvResolver::fetched, (fetching, Ok(value)), good),
        call_ensures(EnvResolver::fetched, (failing, Err(fault)), bad),
    ensures
        ({
            let due = final(asking).entries()[final(asking).done()];
            &&& due.1 is Secret
            &&& account@ == text::decimal(old(asking).server() as int) + seq!['/'] + due.0
            &&& final(asking).entries() == old(asking).entries()
        }),
        good is Ok,
        final(fetching).values().last() == (
            old(fetching).entries()[old(fetching).done()].0,
            value@,
        ),
        final(fetching).values().drop_last() == old(fetching).values(),
        final(fetching).done() == old(fetching).done() + 1,
        bad matches Err(e) && e@ == ErrorView::Keyring(fault.text()),
        fault matches KeyringFault::NoEntry(m) ==> fault.text() == m@,
        fault matches KeyringFault::Other(m) ==> fault.text() == m@,
{
    law_accounts_name_server_and_key(
        old(asking).server(),
        Seq::empty(),
        final(asking).entries()[final(asking).done()].0,
    );
    assert(final(fetching).values().drop_last() =~= old(fetching).values());
}

/// The environment of a process has exactly the variables of its server, in
/// their order: the resolving begins with all of them, and ends with as many.
pub proof fn law_no_variable_is_left_out(
    record: ServerRecord,
    resolver: EnvResolver,
    ended: EnvResolver,
    env: StrMap<String>,
    i: int,
)
    requires
        call_ensures(resolve_env, (&record,), resolver),
        ended.wf(),
        ended.entries() == resolver.entries(),
        ended.done() == ended.entries().len(),
        call_ensures(EnvResolver::finish, (ended,), env),
    ensures
        resolver.server() == record.id,
        resolver.entries() == record.env.items(),
        env.items().len() == record.env.items().len(),
        0 <= i < env.items().len() ==> env.items()[i].0 == record.env.items()[i].0,
        0 <= i < env.items().len() ==> (record.env.items()[i].1 matches EnvView::Plain { value }
            ==> env.items()[i].1 == value),
{
}

} // verus!
