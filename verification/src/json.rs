//! JSON values.
//!
//! [`Json`] is the crate's own JSON value: parsing and printing are done by
//! `serde_json`, whose values are taken apart and put together here one node
//! at a time. Contracts speak of [`JsonView`], the mathematical value.

use vstd::prelude::*;

use crate::text;
use crate::text::same_text;

verus! {

broadcast use vstd::string::group_string_axioms;

/// `serde_json::Value`; what it holds is [`json_of`].
#[verifier::external_type_specification]
#[verifier::external_body]
pub struct ExValue(serde_json::Value);

/// `serde_json::Number`; opaque, so that a number passes through unchanged.
#[verifier::external_type_specification]
#[verifier::external_body]
pub struct ExNumber(serde_json::Number);

/// The mathematical model of a JSON value. An object is the sequence of its
/// members in the order in which they are walked.
#[verifier::ext_equal]
pub enum JsonView {
    Null,
    Bool(bool),
    Number(serde_json::Number),
    Str(Seq<char>),
    Array(Seq<JsonView>),
    Object(Seq<(Seq<char>, JsonView)>),
}

/// A JSON value.
#[derive(Debug, PartialEq)]
pub enum Json {
    Null,
    Bool(bool),
    Number(serde_json::Number),
    Str(String),
    Array(Vec<Json>),
    Object(Vec<(String, Json)>),
}

/// One level of a `serde_json::Value`: its variant with the values below it
/// still unopened.
pub enum JsonNode {
    Null,
    Bool(bool),
    Number(serde_json::Number),
    Str(String),
    Array(Vec<serde_json::Value>),
    Object(Vec<(String, serde_json::Value)>),
}

/// What a `serde_json::Value` holds.
pub uninterp spec fn json_of(v: serde_json::Value) -> JsonView;

/// What parsing a text yields: a value, or the parser's message.
pub uninterp spec fn json_text(text: Seq<char>) -> Result<JsonView, Seq<char>>;

/// The compact rendering of a value.
pub uninterp spec fn json_print(j: JsonView) -> Seq<char>;

/// The rendering of a number.
pub uninterp spec fn number_text_of(n: serde_json::Number) -> Seq<char>;

/// The number as an `i64`, where it is one.
pub uninterp spec fn number_i64_of(n: serde_json::Number) -> Option<i64>;

/// The number made from an `i64`.
pub uninterp spec fn number_of_i64(k: i64) -> serde_json::Number;

/// The number made from a `u64`.
pub uninterp spec fn number_of_u64(k: u64) -> serde_json::Number;

/// The names of an object's members are strictly ascending.
pub open spec fn names_ascend(entries: Seq<(Seq<char>, JsonView)>) -> bool {
    forall|i: int, j: int|
        0 <= i < j < entries.len() ==> text::text_lt(#[trigger] entries[i].0, #[trigger] entries[j].0)
}

/// The value of the first member called `name`.
pub open spec fn lookup(entries: Seq<(Seq<char>, JsonView)>, name: Seq<char>) -> Option<JsonView>
    decreases entries.len(),
{
    if entries.len() == 0 {
        None
    } else if entries[0].0 == name {
        Some(entries[0].1)
    } else {
        lookup(entries.drop_first(), name)
    }
}

impl JsonView {
    /// The member `name` of an object.
    pub open spec fn get(self, name: Seq<char>) -> Option<JsonView> {
        match self {
            JsonView::Object(entries) => lookup(entries, name),
            _ => None,
        }
    }

    pub open spec fn as_str(self) -> Option<Seq<char>> {
        match self {
            JsonView::Str(s) => Some(s),
            _ => None,
        }
    }

    pub open spec fn as_i64(self) -> Option<i64> {
        match self {
            JsonView::Number(n) => number_i64_of(n),
            _ => None,
        }
    }

    /// Every object in the value has strictly ascending member names, as
    /// `serde_json` keeps them.
    pub open spec fn wf(self) -> bool
        decreases self,
    {
        match self {
            JsonView::Array(items) => forall|i: int|
                0 <= i < items.len() ==> (#[trigger] items[i]).wf(),
            JsonView::Object(entries) => {
                &&& names_ascend(entries)
                &&& forall|i: int| 0 <= i < entries.len() ==> (#[trigger] entries[i]).1.wf()
            },
            _ => true,
        }
    }

    /// At most `depth` arrays and objects inside one another, and every number
    /// an `i64`: what printing and parsing carry over without loss.
    pub open spec fn lossless(self, depth: nat) -> bool
        decreases self,
    {
        match self {
            JsonView::Number(n) => number_i64_of(n) is Some,
            JsonView::Array(items) => {
                &&& depth > 0
                &&& forall|i: int|
                    0 <= i < items.len() ==> (#[trigger] items[i]).lossless((depth - 1) as nat)
            },
            JsonView::Object(entries) => {
                &&& depth > 0
                &&& forall|i: int|
                    0 <= i < entries.len() ==> (#[trigger] entries[i]).1.lossless(
                        (depth - 1) as nat,
                    )
            },
            _ => true,
        }
    }
}

/// How many containers inside one another `serde_json` parses.
pub open spec fn max_depth() -> nat {
    127
}

impl Json {
    /// The mathematical value.
    pub open spec fn model(self) -> JsonView
        decreases self,
    {
        match self {
            Json::Null => JsonView::Null,
            Json::Bool(b) => JsonView::Bool(b),
            Json::Number(n) => JsonView::Number(n),
            Json::Str(s) => JsonView::Str(s@),
            Json::Array(items) => JsonView::Array(
                Seq::new(
                    items@.len(),
                    |i: int|
                        if 0 <= i < items@.len() {
                            items@[i].model()
                        } else {
                            JsonView::Null
                        },
                ),
            ),
            Json::Object(entries) => JsonView::Object(
                Seq::new(
                    entries@.len(),
                    |i: int|
                        if 0 <= i < entries@.len() {
                            (entries@[i].0@, entries@[i].1.model())
                        } else {
                            (Seq::<char>::empty(), JsonView::Null)
                        },
                ),
            ),
        }
    }
}

impl View for Json {
    type V = JsonView;

    open spec fn view(&self) -> JsonView {
        self.model()
    }
}

/// The views of a list of values.
pub open spec fn items_view(items: Seq<Json>) -> Seq<JsonView> {
    items.map_values(|j: Json| j@)
}

/// The views of a list of members.
pub open spec fn entries_view(entries: Seq<(String, Json)>) -> Seq<(Seq<char>, JsonView)> {
    entries.map_values(|e: (String, Json)| (e.0@, e.1@))
}

pub broadcast proof fn lemma_array_view(items: Vec<Json>)
    ensures
        #[trigger] Json::Array(items)@ == JsonView::Array(items_view(items@)),
{
    assert(Json::Array(items)@->Array_0 =~= items_view(items@));
}

pub broadcast proof fn lemma_object_view(entries: Vec<(String, Json)>)
    ensures
        #[trigger] Json::Object(entries)@ == JsonView::Object(entries_view(entries@)),
{
    let seen = Json::Object(entries)@->Object_0;
    assert forall|i: int| 0 <= i < seen.len() implies seen[i] == entries_view(entries@)[i] by {
        assert(seen[i] == (entries@[i].0@, entries@[i].1@));
    }
    assert(seen =~= entries_view(entries@));
}

pub broadcast group group_json_views {
    lemma_array_view,
    lemma_object_view,
}

/// Names ascend where each comes before the next.
pub proof fn lemma_names_ascend(entries: Seq<(Seq<char>, JsonView)>)
    requires
        forall|i: int, j: int|
            0 <= i && j == i + 1 && j < entries.len() ==> text::text_lt(
                #[trigger] entries[i].0,
                #[trigger] entries[j].0,
            ),
    ensures
        names_ascend(entries),
{
    assert forall|i: int, j: int| 0 <= i < j < entries.len() implies text::text_lt(
        #[trigger] entries[i].0,
        #[trigger] entries[j].0,
    ) by {
        lemma_name_before(entries, i, j);
    }
}

proof fn lemma_name_before(entries: Seq<(Seq<char>, JsonView)>, i: int, j: int)
    requires
        0 <= i < j < entries.len(),
        forall|a: int, b: int|
            0 <= a && b == a + 1 && b < entries.len() ==> text::text_lt(
                #[trigger] entries[a].0,
                #[trigger] entries[b].0,
            ),
    ensures
        text::text_lt(entries[i].0, entries[j].0),
    decreases j - i,
{
    if i + 1 < j {
        lemma_name_before(entries, i + 1, j);
        text::lemma_text_lt_trans(entries[i].0, entries[i + 1].0, entries[j].0);
    }
}

/// An object is well-formed when its names ascend and its values are
/// well-formed.
pub proof fn lemma_object_wf(entries: Seq<(Seq<char>, JsonView)>)
    requires
        names_ascend(entries),
        forall|i: int| 0 <= i < entries.len() ==> (#[trigger] entries[i]).1.wf(),
    ensures
        JsonView::Object(entries).wf(),
{
    let j = JsonView::Object(entries);
    assert(j.wf());
}

/// What an opened value stands for.
pub open spec fn node_view(node: JsonNode) -> JsonView {
    match node {
        JsonNode::Null => JsonView::Null,
        JsonNode::Bool(b) => JsonView::Bool(b),
        JsonNode::Number(n) => JsonView::Number(n),
        JsonNode::Str(s) => JsonView::Str(s@),
        JsonNode::Array(items) => JsonView::Array(
            items@.map_values(|v: serde_json::Value| json_of(v)),
        ),
        JsonNode::Object(entries) => JsonView::Object(
            entries@.map_values(|e: (String, serde_json::Value)| (e.0@, json_of(e.1))),
        ),
    }
}

/// `serde_json::from_str` into a `Value`: the value the text denotes, or the
/// parser's message. Parsed objects have strictly ascending member names.
#[verifier::external_body]
fn parse_value(text: &str) -> (r: Result<serde_json::Value, String>)
    ensures
        match r {
            Ok(v) => json_text(text@) == Ok::<JsonView, Seq<char>>(json_of(v)),
            Err(e) => json_text(text@) == Err::<JsonView, Seq<char>>(e@),
        },
{
    serde_json::from_str::<serde_json::Value>(text).map_err(|e| e.to_string())
}

/// The variant of a `serde_json::Value` and what stands directly below it. The
/// members of an object come in ascending order of their names, which are
/// distinct (`serde_json::Map` is a `BTreeMap`).
#[verifier::external_body]
fn open_value(v: serde_json::Value) -> (r: JsonNode)
    ensures
        node_view(r) == json_of(v),
        node_view(r) matches JsonView::Object(entries) ==> names_ascend(entries),
{
    match v {
        serde_json::Value::Null => JsonNode::Null,
        serde_json::Value::Bool(b) => JsonNode::Bool(b),
        serde_json::Value::Number(n) => JsonNode::Number(n),
        serde_json::Value::String(s) => JsonNode::Str(s),
        serde_json::Value::Array(items) => JsonNode::Array(items),
        serde_json::Value::Object(members) => JsonNode::Object(members.into_iter().collect()),
    }
}

/// The `serde_json::Value` made of a variant and the values below it. Members
/// handed over in strictly ascending order are the object's members.
#[verifier::external_body]
fn close_value(node: JsonNode) -> (r: serde_json::Value)
    ensures
        (node_view(node) matches JsonView::Object(entries) ==> names_ascend(entries)) ==> json_of(r)
            == node_view(node),
{
    match node {
        JsonNode::Null => serde_json::Value::Null,
        JsonNode::Bool(b) => serde_json::Value::Bool(b),
        JsonNode::Number(n) => serde_json::Value::Number(n),
        JsonNode::Str(s) => serde_json::Value::String(s),
        JsonNode::Array(items) => serde_json::Value::Array(items),
        JsonNode::Object(entries) => serde_json::Value::Object(entries.into_iter().collect()),
    }
}

/// `serde_json::Value::to_string`: the compact rendering. It never holds a line
/// feed, and parsing it gives the value back where the value is lossless. (Of
/// `serde_json`'s features neither `raw_value` nor `arbitrary_precision` is on:
/// each reserves a member name that the parser takes for something else.)
#[verifier::external_body]
fn value_text(v: &serde_json::Value) -> (r: String)
    ensures
        r@ == json_print(json_of(*v)),
        !r@.contains('\n'),
        json_of(*v).wf() && json_of(*v).lossless(max_depth()) ==> json_text(r@) is Ok
            && json_text(r@)->Ok_0 == json_of(*v),
{
    v.to_string()
}

/// `serde_json::Number`'s rendering; an `i64` renders in decimal.
#[verifier::external_body]
pub(crate) fn number_text(n: &serde_json::Number) -> (r: String)
    ensures
        r@ == number_text_of(*n),
        number_i64_of(*n) matches Some(k) ==> r@ == text::decimal(k as int),
{
    n.to_string()
}

/// `serde_json::Number::as_i64`.
#[verifier::external_body]
fn number_i64(n: &serde_json::Number) -> (r: Option<i64>)
    ensures
        r == number_i64_of(*n),
{
    n.as_i64()
}

/// `serde_json::Number::from(i64)`: the number that `as_i64` gives back.
#[verifier::external_body]
fn number_from_i64(k: i64) -> (r: serde_json::Number)
    ensures
        r == number_of_i64(k),
        number_i64_of(r) == Some(k),
{
    serde_json::Number::from(k)
}

/// `serde_json::Number::from(u64)`: an `i64` where it fits.
#[verifier::external_body]
fn number_from_u64(k: u64) -> (r: serde_json::Number)
    ensures
        r == number_of_u64(k),
        number_i64_of(r) == (if k <= i64::MAX { Some(k as i64) } else { None::<i64> }),
{
    serde_json::Number::from(k)
}

/// `serde_json::Number::clone` copies the number.
pub assume_specification[ <serde_json::Number as Clone>::clone ](
    n: &serde_json::Number,
) -> (r: serde_json::Number)
    ensures
        r == *n,
;

proof fn lemma_item_smaller(items: Seq<JsonView>, i: int)
    requires
        0 <= i < items.len(),
    ensures
        decreases_to!(JsonView::Array(items) => items[i]),
{
    let j = JsonView::Array(items);
    assert(decreases_to!(j => j->Array_0[i]));
}

proof fn lemma_member_smaller(entries: Seq<(Seq<char>, JsonView)>, i: int)
    requires
        0 <= i < entries.len(),
    ensures
        decreases_to!(JsonView::Object(entries) => entries[i].1),
{
    let j = JsonView::Object(entries);
    assert(decreases_to!(j => j->Object_0[i].1));
}

proof fn lemma_items_wf(items: Seq<JsonView>)
    ensures
        JsonView::Array(items).wf() == forall|i: int|
            0 <= i < items.len() ==> (#[trigger] items[i]).wf(),
{
    let j = JsonView::Array(items);
    if j.wf() {
        assert forall|i: int| 0 <= i < items.len() implies (#[trigger] items[i]).wf() by {
            let k = j->Array_0[i];
            assert(k.wf());
        }
    }
    if forall|i: int| 0 <= i < items.len() ==> (#[trigger] items[i]).wf() {
        assert(j.wf());
    }
}

/// A `serde_json::Value` as a [`Json`].
fn from_value(v: serde_json::Value) -> (r: Json)
    ensures
        r@ == json_of(v),
        r@.wf(),
    decreases json_of(v),
{
    broadcast use group_json_views;

    match open_value(v) {
        JsonNode::Null => Json::Null,
        JsonNode::Bool(b) => Json::Bool(b),
        JsonNode::Number(n) => Json::Number(n),
        JsonNode::Str(s) => Json::Str(s),
        JsonNode::Array(items) => {
            let ghost whole = items@.map_values(|x: serde_json::Value| json_of(x));
            let mut out: Vec<Json> = Vec::new();
            for item in iter: items
                invariant
                    iter.seq() == items@,
                    json_of(v) == JsonView::Array(whole),
                    whole == items@.map_values(|x: serde_json::Value| json_of(x)),
                    items_view(out@) =~= whole.take(iter.index()),
                    forall|i: int| 0 <= i < out@.len() ==> (#[trigger] out@[i])@.wf(),
            {
                assert(whole[iter.index()] == json_of(item));
                proof {
                    lemma_item_smaller(whole, iter.index());
                }
                let ghost before = out@;
                let value = from_value(item);
                out.push(value);
                assert(items_view(out@) =~= items_view(before).push(value@));
                assert(whole.take(iter.index() + 1) =~= whole.take(iter.index()).push(value@));
            }
            assert(items_view(out@) =~= whole);
            assert forall|i: int| 0 <= i < whole.len() implies (#[trigger] whole[i]).wf() by {
                assert(out@[i]@ == whole[i]);
            }
            Json::Array(out)
        },
        JsonNode::Object(entries) => {
            let ghost whole = entries@.map_values(
                |e: (String, serde_json::Value)| (e.0@, json_of(e.1)),
            );
            let mut out: Vec<(String, Json)> = Vec::new();
            for entry in iter: entries
                invariant
                    iter.seq() == entries@,
                    json_of(v) == JsonView::Object(whole),
                    whole == entries@.map_values(
                        |e: (String, serde_json::Value)| (e.0@, json_of(e.1)),
                    ),
                    entries_view(out@) =~= whole.take(iter.index()),
                    forall|i: int| 0 <= i < out@.len() ==> (#[trigger] out@[i]).1@.wf(),
            {
                assert(whole[iter.index()] == (entry.0@, json_of(entry.1)));
                proof {
                    lemma_member_smaller(whole, iter.index());
                }
                let ghost before = out@;
                let value = from_value(entry.1);
                out.push((entry.0, value));
                assert(entries_view(out@) =~= entries_view(before).push((entry.0@, value@)));
                assert(whole.take(iter.index() + 1) =~= whole.take(iter.index()).push(
                    (entry.0@, value@),
                ));
            }
            assert(entries_view(out@) =~= whole);
            assert forall|i: int| 0 <= i < whole.len() implies (#[trigger] whole[i]).1.wf() by {
                assert(out@[i].1@ == whole[i].1);
            }
            Json::Object(out)
        },
    }
}

/// A [`Json`] as a `serde_json::Value`.
fn into_value(j: Json) -> (r: serde_json::Value)
    ensures
        j@.wf() ==> json_of(r) == j@,
    decreases j,
{
    broadcast use group_json_views;

    match j {
        Json::Null => close_value(JsonNode::Null),
        Json::Bool(b) => close_value(JsonNode::Bool(b)),
        Json::Number(n) => close_value(JsonNode::Number(n)),
        Json::Str(s) => close_value(JsonNode::Str(s)),
        Json::Array(items) => {
            let ghost whole = items_view(items@);
            let mut out: Vec<serde_json::Value> = Vec::new();
            for item in iter: items
                invariant
                    iter.seq() == items@,
                    j == Json::Array(items),
                    j@ == JsonView::Array(whole),
                    whole == items_view(items@),
                    out@.len() == iter.index(),
                    j@.wf() ==> forall|i: int| 0 <= i < out@.len() ==> json_of(#[trigger] out@[i]) == whole[i],
            {
                assert(items@[iter.index()] == item);
                assert(whole[iter.index()] == item@);
                assert(decreases_to!(j => item));
                assert(j@.wf() ==> whole[iter.index()].wf()) by {
                    lemma_items_wf(whole);
                }
                out.push(into_value(item));
            }
            let node = JsonNode::Array(out);
            proof {
                if j@.wf() {
                    assert(node_view(node)->Array_0 =~= whole);
                }
            }
            close_value(node)
        },
        Json::Object(entries) => {
            let ghost whole = entries_view(entries@);
            let mut out: Vec<(String, serde_json::Value)> = Vec::new();
            for entry in iter: entries
                invariant
                    iter.seq() == entries@,
                    j == Json::Object(entries),
                    j@ == JsonView::Object(whole),
                    whole == entries_view(entries@),
                    out@.len() == iter.index(),
                    j@.wf() ==> forall|i: int|
                        0 <= i < out@.len() ==> (#[trigger] out@[i]).0@ == whole[i].0 && json_of(
                            out@[i].1,
                        ) == whole[i].1,
            {
                assert(entries@[iter.index()] == entry);
                assert(whole[iter.index()] == (entry.0@, entry.1@));
                assert(decreases_to!(j => entry.1));
                assert(j@.wf() ==> whole[iter.index()].1.wf());
                let value = into_value(entry.1);
                out.push((entry.0, value));
            }
            let node = JsonNode::Object(out);
            proof {
                if j@.wf() {
                    assert(node_view(node)->Object_0 =~= whole);
                }
            }
            close_value(node)
        },
    }
}

/// The view of an optional borrow.
pub open spec fn borrowed_view(r: Option<&Json>) -> Option<JsonView> {
    match r {
        Some(j) => Some(j@),
        None => None,
    }
}

impl Json {
    /// The string `s`.
    pub fn string(s: &str) -> (r: Json)
        ensures
            r@ == JsonView::Str(s@),
    {
        Json::Str(s.to_owned())
    }

    /// The number `k`.
    pub fn from_i64(k: i64) -> (r: Json)
        ensures
            r@ == JsonView::Number(number_of_i64(k)),
            number_i64_of(number_of_i64(k)) == Some(k),
    {
        Json::Number(number_from_i64(k))
    }

    /// The number `k`.
    pub fn from_u64(k: u64) -> (r: Json)
        ensures
            r@ == JsonView::Number(number_of_u64(k)),
            number_i64_of(number_of_u64(k)) == (if k <= i64::MAX {
                Some(k as i64)
            } else {
                None::<i64>
            }),
    {
        Json::Number(number_from_u64(k))
    }

    /// The object without members.
    pub fn empty_object() -> (r: Json)
        ensures
            r@ == JsonView::Object(Seq::empty()),
    {
        broadcast use group_json_views;

        let members: Vec<(String, Json)> = Vec::new();
        assert(entries_view(members@) =~= Seq::empty());
        Json::Object(members)
    }

    /// The member `name` of an object.
    pub fn get(&self, name: &str) -> (r: Option<&Json>)
        ensures
            borrowed_view(r) == self@.get(name@),
    {
        broadcast use group_json_views;

        match self {
            Json::Object(entries) => {
                let ghost whole = entries_view(entries@);
                let mut i: usize = 0;
                assert(whole.skip(0) =~= whole);
                while i < entries.len()
                    invariant
                        i <= entries.len(),
                        whole == entries_view(entries@),
                        self@ == JsonView::Object(whole),
                        lookup(whole, name@) == lookup(whole.skip(i as int), name@),
                    decreases entries.len() - i,
                {
                    assert(whole.skip(i as int)[0] == (entries[i as int].0@, entries[i as int].1@));
                    if same_text(entries[i].0.as_str(), name) {
                        return Some(&entries[i].1);
                    }
                    assert(whole.skip(i as int).drop_first() =~= whole.skip(i + 1));
                    i = i + 1;
                }
                None
            },
            _ => None,
        }
    }

    /// Whether an object has the member `name`.
    pub fn has(&self, name: &str) -> (r: bool)
        ensures
            r == (self@.get(name@) is Some),
    {
        self.get(name).is_some()
    }

    /// The text of a string.
    pub fn as_str(&self) -> (r: Option<&str>)
        ensures
            match r {
                Some(s) => self@.as_str() == Some(s@),
                None => self@.as_str() is None,
            },
    {
        match self {
            Json::Str(s) => Some(s.as_str()),
            _ => None,
        }
    }

    /// The number as an `i64`, where it is one.
    pub fn as_i64(&self) -> (r: Option<i64>)
        ensures
            r == self@.as_i64(),
    {
        match self {
            Json::Number(n) => number_i64(n),
            _ => None,
        }
    }

    /// The compact rendering on one line.
    pub fn to_text(self) -> (r: String)
        ensures
            self@.wf() ==> r@ == json_print(self@),
            !r@.contains('\n'),
            self@.wf() && self@.lossless(max_depth()) ==> json_text(r@) is Ok && json_text(
                r@,
            )->Ok_0 == self@,
    {
        let v = into_value(self);
        value_text(&v)
    }
}

proof fn lemma_below_array(items: Vec<Json>, i: int)
    requires
        0 <= i < items@.len(),
    ensures
        decreases_to!(Json::Array(items) => items@[i]),
{
    let j = Json::Array(items);
    assert(decreases_to!(j => j->Array_0@[i]));
}

proof fn lemma_below_object(entries: Vec<(String, Json)>, i: int)
    requires
        0 <= i < entries@.len(),
    ensures
        decreases_to!(Json::Object(entries) => entries@[i].1),
{
    let j = Json::Object(entries);
    assert(decreases_to!(j => j->Object_0@[i].1));
}

impl Clone for Json {
    fn clone(&self) -> (r: Json)
        ensures
            r@ == self@,
        decreases self,
    {
        broadcast use group_json_views;

        match self {
            Json::Null => Json::Null,
            Json::Bool(b) => Json::Bool(*b),
            Json::Number(n) => Json::Number(n.clone()),
            Json::Str(s) => Json::Str(s.clone()),
            Json::Array(items) => {
                let mut out: Vec<Json> = Vec::new();
                let mut i: usize = 0;
                while i < items.len()
                    invariant
                        i <= items.len(),
                        *self == Json::Array(*items),
                        items_view(out@) =~= items_view(items@).take(i as int),
                    decreases items.len() - i,
                {
                    proof {
                        lemma_below_array(*items, i as int);
                    }
                    let ghost before = out@;
                    let value = items[i].clone();
                    out.push(value);
                    assert(items_view(out@) =~= items_view(before).push(value@));
                    assert(items_view(items@).take(i + 1) =~= items_view(items@).take(
                        i as int,
                    ).push(value@));
                    i = i + 1;
                }
                assert(items_view(out@) =~= items_view(items@));
                Json::Array(out)
            },
            Json::Object(entries) => {
                let mut out: Vec<(String, Json)> = Vec::new();
                let mut i: usize = 0;
                while i < entries.len()
                    invariant
                        i <= entries.len(),
                        *self == Json::Object(*entries),
                        entries_view(out@) =~= entries_view(entries@).take(i as int),
                    decreases entries.len() - i,
                {
                    proof {
                        lemma_below_object(*entries, i as int);
                    }
                    let ghost before = out@;
                    let name = entries[i].0.clone();
                    let value = entries[i].1.clone();
                    out.push((name, value));
                    assert(entries_view(out@) =~= entries_view(before).push((name@, value@)));
                    assert(entries_view(entries@).take(i + 1) =~= entries_view(entries@).take(
                        i as int,
                    ).push((name@, value@)));
                    i = i + 1;
                }
                assert(entries_view(out@) =~= entries_view(entries@));
                Json::Object(out)
            },
        }
    }
}

/// Parse a JSON text.
pub fn parse_json(text: &str) -> (r: Result<Json, String>)
    ensures
        match r {
            Ok(j) => json_text(text@) == Ok::<JsonView, Seq<char>>(j@) && j@.wf(),
            Err(e) => json_text(text@) == Err::<JsonView, Seq<char>>(e@),
        },
{
    match parse_value(text) {
        Ok(v) => Ok(from_value(v)),
        Err(e) => Err(e),
    }
}

/// A member of an object.
pub fn member(name: &str, value: Json) -> (r: (String, Json))
    ensures
        r.0@ == name@,
        r.1 == value,
{
    (name.to_owned(), value)
}

/// A member is found under its name, with the value it has, wherever it stands:
/// where no name occurs twice, what is found under a name is what some member of
/// that name holds, and nothing is found exactly where there is no such member.
pub proof fn law_members_are_found_by_name(entries: Seq<(Seq<char>, JsonView)>, name: Seq<char>)
    requires
        forall|i: int, j: int|
            0 <= i < j < entries.len() ==> (#[trigger] entries[i]).0 != (#[trigger] entries[j]).0,
    ensures
        forall|i: int|
            0 <= i < entries.len() && (#[trigger] entries[i]).0 == name ==> JsonView::Object(
                entries,
            ).get(name) == Some(entries[i].1),
        (forall|i: int| 0 <= i < entries.len() ==> (#[trigger] entries[i]).0 != name)
            ==> JsonView::Object(entries).get(name) is None,
    decreases entries.len(),
{
    if entries.len() > 0 {
        let rest = entries.drop_first();
        assert forall|i: int, j: int| 0 <= i < j < rest.len() implies (#[trigger] rest[i]).0 != (
        #[trigger] rest[j]).0 by {
            assert(rest[i] == entries[i + 1] && rest[j] == entries[j + 1]);
        }
        law_members_are_found_by_name(rest, name);
        assert(JsonView::Object(rest).get(name) == lookup(rest, name));
        assert forall|i: int|
            0 <= i < entries.len() && (#[trigger] entries[i]).0 == name implies JsonView::Object(
            entries,
        ).get(name) == Some(entries[i].1) by {
            if i > 0 {
                assert(entries[0].0 != entries[i].0);
                assert(rest[i - 1] == entries[i]);
            }
        }
        if forall|i: int| 0 <= i < entries.len() ==> (#[trigger] entries[i]).0 != name {
            assert(entries[0].0 != name);
            assert forall|i: int| 0 <= i < rest.len() implies (#[trigger] rest[i]).0 != name by {
                assert(rest[i] == entries[i + 1]);
            }
        }
    }
}

/// Only objects have members, only texts are texts, and only numbers are
/// integers: those that `serde_json` says are.
pub proof fn law_values_are_of_one_kind(
    b: bool,
    n: serde_json::Number,
    s: Seq<char>,
    items: Seq<JsonView>,
    entries: Seq<(Seq<char>, JsonView)>,
    name: Seq<char>,
)
    ensures
        JsonView::Null.get(name) is None,
        JsonView::Bool(b).get(name) is None,
        JsonView::Number(n).get(name) is None,
        JsonView::Str(s).get(name) is None,
        JsonView::Array(items).get(name) is None,
        JsonView::Null.as_str() is None,
        JsonView::Bool(b).as_str() is None,
        JsonView::Number(n).as_str() is None,
        JsonView::Array(items).as_str() is None,
        JsonView::Object(entries).as_str() is None,
        JsonView::Str(s).as_str() == Some(s),
        JsonView::Null.as_i64() is None,
        JsonView::Bool(b).as_i64() is None,
        JsonView::Str(s).as_i64() is None,
        JsonView::Array(items).as_i64() is None,
        JsonView::Object(entries).as_i64() is None,
        JsonView::Number(n).as_i64() == number_i64_of(n),
{
}

/// No name occurs twice where the names ascend.
pub proof fn lemma_ascending_names_differ(entries: Seq<(Seq<char>, JsonView)>)
    requires
        names_ascend(entries),
    ensures
        forall|i: int, j: int|
            0 <= i < j < entries.len() ==> (#[trigger] entries[i]).0 != (#[trigger] entries[j]).0,
{
    assert forall|i: int, j: int| 0 <= i < j < entries.len() implies (#[trigger] entries[i]).0 != (
    #[trigger] entries[j]).0 by {
        assert(text::text_lt(entries[i].0, entries[j].0));
        text::lemma_text_lt_irreflexive(entries[i].0);
    }
}

/// A value is seen as what it is: every item of an array and every member of an
/// object, in order, each as what it is itself.
pub proof fn law_values_are_seen_as_they_are(
    b: bool,
    n: serde_json::Number,
    s: String,
    items: Vec<Json>,
    entries: Vec<(String, Json)>,
    i: int,
)
    ensures
        Json::Null@ is Null,
        Json::Bool(b)@ == JsonView::Bool(b),
        Json::Number(n)@ == JsonView::Number(n),
        Json::Str(s)@ == JsonView::Str(s@),
        Json::Array(items)@ is Array,
        Json::Array(items)@->Array_0.len() == items@.len(),
        0 <= i < items@.len() ==> Json::Array(items)@->Array_0[i] == items@[i]@,
        Json::Object(entries)@ is Object,
        Json::Object(entries)@->Object_0.len() == entries@.len(),
        0 <= i < entries@.len() ==> Json::Object(entries)@->Object_0[i] == (
            entries@[i].0@,
            entries@[i].1@,
        ),
{
    broadcast use group_json_views;

}

/// What is printed reads back: a value that keeps to the depth and the numbers
/// that survive printing comes back as it was, on one line.
pub proof fn law_what_is_printed_reads_back(
    j: Json,
    text: String,
    line: &str,
    read: Result<Json, String>,
)
    requires
        j@.wf(),
        j@.lossless(127),
        call_ensures(Json::to_text, (j,), text),
        line@ == text@,
        call_ensures(parse_json, (line,), read),
    ensures
        read matches Ok(k) && k@ == j@,
        !text@.contains('\n'),
{
}

/// What survives printing: truth values, texts and integers do, whatever they
/// are, and so do lists and objects of what survives, one inside the other up to
/// the depth.
pub proof fn law_what_survives_printing(
    b: bool,
    s: Seq<char>,
    n: serde_json::Number,
    items: Seq<JsonView>,
    entries: Seq<(Seq<char>, JsonView)>,
    depth: nat,
)
    ensures
        JsonView::Null.lossless(depth),
        JsonView::Bool(b).lossless(depth),
        JsonView::Str(s).lossless(depth),
        JsonView::Number(n).lossless(depth) <==> number_i64_of(n) is Some,
        (forall|i: int| 0 <= i < items.len() ==> (#[trigger] items[i]).lossless(depth))
            ==> JsonView::Array(items).lossless(depth + 1),
        (forall|i: int| 0 <= i < entries.len() ==> (#[trigger] entries[i]).1.lossless(depth))
            ==> JsonView::Object(entries).lossless(depth + 1),
{
}

} // verus!
