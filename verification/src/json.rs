//! JSON values as plain data.

use crate::copied::{views, Copied};
use crate::order::{before, lemma_order_total, lemma_order_transitive};
use crate::text::same;
use vstd::prelude::*;

verus! {

/// The number type of `serde_json`, which tells integers from floating-point numbers.
#[verifier::external_type_specification]
#[verifier::external_body]
pub struct ExNumber(serde_json::Number);

/// The tree that `serde_json` reads and prints.
#[verifier::external_type_specification]
#[verifier::external_body]
pub struct ExValue(serde_json::Value);

/// What `serde_json` says of text that is no JSON.
#[verifier::external_type_specification]
#[verifier::external_body]
pub struct ExError(serde_json::Error);

/// A JSON value.
#[derive(Debug, PartialEq)]
pub enum Json {
    Null,
    Flag(bool),
    Number(serde_json::Number),
    Text(String),
    List(Vec<Json>),
    Object(Vec<(String, Json)>),
}

/// A JSON value, with its texts and lists taken by their contents.
pub enum JsonView {
    Null,
    Flag(bool),
    Number(serde_json::Number),
    Text(Seq<char>),
    List(Seq<JsonView>),
    Object(Seq<(Seq<char>, JsonView)>),
}

/// The views of a list of values.
pub open spec fn json_views(list: Seq<Json>) -> Seq<JsonView>
    decreases list,
{
    if list.len() == 0 {
        Seq::empty()
    } else {
        json_views(list.drop_last()).push(list.last().view())
    }
}

/// The views of the members of an object.
pub open spec fn member_views(list: Seq<(String, Json)>) -> Seq<(Seq<char>, JsonView)>
    decreases list,
{
    if list.len() == 0 {
        Seq::empty()
    } else {
        member_views(list.drop_last()).push((list.last().0@, list.last().1.view()))
    }
}

impl View for Json {
    type V = JsonView;

    open spec fn view(&self) -> JsonView
        decreases self,
    {
        match self {
            Json::Null => JsonView::Null,
            Json::Flag(b) => JsonView::Flag(*b),
            Json::Number(n) => JsonView::Number(*n),
            Json::Text(s) => JsonView::Text(s@),
            Json::List(list) => JsonView::List(json_views(list@)),
            Json::Object(members) => JsonView::Object(member_views(members@)),
        }
    }
}

/// A list of values has a view for each of them.
pub proof fn lemma_json_views(list: Seq<Json>)
    ensures
        json_views(list).len() == list.len(),
        forall|i: int| 0 <= i < list.len() ==> #[trigger] json_views(list)[i] == list[i]@,
    decreases list.len(),
{
    reveal_with_fuel(json_views, 2);
    if list.len() > 0 {
        lemma_json_views(list.drop_last());
        assert forall|i: int| 0 <= i < list.len() implies #[trigger] json_views(list)[i]
            == list[i]@ by {
            if i < list.len() - 1 {
                assert(list.drop_last()[i] == list[i]);
            }
        }
    }
}

/// An object has a view for each of its members.
pub proof fn lemma_member_views(list: Seq<(String, Json)>)
    ensures
        member_views(list).len() == list.len(),
        forall|i: int|
            0 <= i < list.len() ==> #[trigger] member_views(list)[i] == (list[i].0@, list[i].1@),
    decreases list.len(),
{
    reveal_with_fuel(member_views, 2);
    if list.len() > 0 {
        lemma_member_views(list.drop_last());
        assert forall|i: int| 0 <= i < list.len() implies #[trigger] member_views(list)[i] == (
            list[i].0@,
            list[i].1@,
        ) by {
            if i < list.len() - 1 {
                assert(list.drop_last()[i] == list[i]);
            }
        }
    }
}

/// The number as a `u64`, where it is one.
pub uninterp spec fn whole(n: serde_json::Number) -> Option<u64>;

/// The number that `serde_json` makes of a `u64`.
pub uninterp spec fn number_of(n: u64) -> serde_json::Number;

/// The number that `serde_json` makes of an `i64`.
pub uninterp spec fn signed_number_of(n: i64) -> serde_json::Number;

/// What a `serde_json` tree holds.
pub uninterp spec fn contents(value: serde_json::Value) -> JsonView;

/// What `serde_json` displays of an error.
pub uninterp spec fn error_shown(error: serde_json::Error) -> Seq<char>;

/// What `serde_json` reads from a text: a value, or what it says of the text.
pub uninterp spec fn json_read(text: Seq<char>) -> Result<JsonView, Seq<char>>;

/// What `serde_json` prints of a value, in its compact form.
pub uninterp spec fn json_printed(value: JsonView) -> Seq<char>;

/// Whether the keys of every object in `j` stand in strictly ascending order.
pub open spec fn ordered(j: JsonView) -> bool
    decreases j,
{
    match j {
        JsonView::List(list) => forall|i: int| 0 <= i < list.len() ==> ordered(#[trigger] list[i]),
        JsonView::Object(members) => {
            &&& forall|a: int, b: int|
                0 <= a < b < members.len() ==> before(
                    (#[trigger] members[a]).0,
                    (#[trigger] members[b]).0,
                )
            &&& forall|i: int| 0 <= i < members.len() ==> ordered((#[trigger] members[i]).1)
        },
        _ => true,
    }
}

/// What a number that is printed is read as: a whole one as itself, any other as `serde_json`
/// reads it where it stands alone. The nearest number that is printed may be read as its
/// neighbour, and one at the end of the range as none.
pub open spec fn reread(n: serde_json::Number) -> Option<serde_json::Number> {
    if whole(n) is Some {
        Some(n)
    } else {
        match json_read(json_printed(JsonView::Number(n))) {
            Ok(JsonView::Number(m)) => Some(m),
            _ => None,
        }
    }
}

/// Whether `j` nests at most `depth` levels deep and all its numbers are read back as numbers.
pub open spec fn readable(j: JsonView, depth: nat) -> bool
    decreases depth,
{
    match j {
        JsonView::Number(n) => reread(n) is Some,
        JsonView::List(list) => depth > 0 && forall|i: int|
            0 <= i < list.len() ==> readable(#[trigger] list[i], (depth - 1) as nat),
        JsonView::Object(members) => depth > 0 && forall|i: int|
            0 <= i < members.len() ==> readable((#[trigger] members[i]).1, (depth - 1) as nat),
        _ => true,
    }
}

/// Whether `k` is `j` but for its numbers, each of which is what that of `j` is read as.
pub open spec fn reread_as(j: JsonView, k: JsonView) -> bool
    decreases j,
{
    match (j, k) {
        (JsonView::Number(n), JsonView::Number(m)) => reread(n) == Some(m),
        (JsonView::List(a), JsonView::List(b)) => a.len() == b.len() && forall|i: int|
            0 <= i < a.len() ==> reread_as(#[trigger] a[i], b[i]),
        (JsonView::Object(a), JsonView::Object(b)) => a.len() == b.len() && forall|i: int|
            0 <= i < a.len() ==> (#[trigger] a[i]).0 == b[i].0 && reread_as(a[i].1, b[i].1),
        _ => j == k,
    }
}

/// Whether a text reads as `j` but for its numbers, each of which is what that of `j` is read as.
pub open spec fn reads_back(text: Seq<char>, j: JsonView) -> bool {
    exists|k: JsonView|
        json_read(text) == Ok::<JsonView, Seq<char>>(k) && #[trigger] reread_as(j, k)
}

/// `serde_json::Number::as_u64`: the number, where it is an integer that a `u64` holds.
#[verifier::external_body]
fn number_as_u64(n: &serde_json::Number) -> (r: Option<u64>)
    ensures
        r == whole(*n),
{
    n.as_u64()
}

/// `From<u64>` for `serde_json::Number`: the number reads back as the same integer.
#[verifier::external_body]
fn number_from(n: u64) -> (r: serde_json::Number)
    ensures
        r == number_of(n),
        whole(r) == Some(n),
{
    serde_json::Number::from(n)
}

/// `From<i64>` for `serde_json::Number`: a function of the integer alone.
#[verifier::external_body]
fn number_from_signed(n: i64) -> (r: serde_json::Number)
    ensures
        r == signed_number_of(n),
{
    serde_json::Number::from(n)
}

/// `Clone` for `serde_json::Number`: the same number.
#[verifier::external_body]
pub(crate) fn number_clone(n: &serde_json::Number) -> (r: serde_json::Number)
    ensures
        r == *n,
{
    n.clone()
}

/// `serde_json::from_str` to a `serde_json::Value`: the value and the error's text are
/// functions of the text alone.
#[verifier::external_body]
fn read_value(text: &str) -> (r: Result<serde_json::Value, serde_json::Error>)
    ensures
        match r {
            Ok(value) => json_read(text@) == Ok::<JsonView, Seq<char>>(contents(value)),
            Err(error) => json_read(text@) == Err::<JsonView, Seq<char>>(error_shown(error)),
        },
{
    serde_json::from_str(text)
}

/// `Display` for `serde_json::Error`.
#[verifier::external_body]
fn error_text(error: serde_json::Error) -> (r: String)
    ensures
        r@ == error_shown(error),
{
    error.to_string()
}

/// The variants of `serde_json::Value`, one for one. The members of an object come in the
/// order in which `serde_json::Map` is walked, which is that of the keys.
#[verifier::external_body]
fn json_from(value: serde_json::Value) -> (r: Json)
    ensures
        r@ == contents(value),
        ordered(r@),
{
    match value {
        serde_json::Value::Null => Json::Null,
        serde_json::Value::Bool(b) => Json::Flag(b),
        serde_json::Value::Number(n) => Json::Number(n),
        serde_json::Value::String(s) => Json::Text(s),
        serde_json::Value::Array(list) => Json::List(list.into_iter().map(json_from).collect()),
        serde_json::Value::Object(map) => {
            Json::Object(map.into_iter().map(|(k, v)| (k, json_from(v))).collect())
        },
    }
}

/// The variants of `serde_json::Value`, one for one. `serde_json::Map` keeps its keys in
/// ascending order, so an object whose keys stand in that order is kept as it is.
#[verifier::external_body]
fn value_from(json: Json) -> (r: serde_json::Value)
    ensures
        ordered(json@) ==> contents(r) == json@,
{
    match json {
        Json::Null => serde_json::Value::Null,
        Json::Flag(b) => serde_json::Value::Bool(b),
        Json::Number(n) => serde_json::Value::Number(n),
        Json::Text(s) => serde_json::Value::String(s),
        Json::List(list) => serde_json::Value::Array(list.into_iter().map(value_from).collect()),
        Json::Object(members) => {
            serde_json::Value::Object(members.into_iter().map(|(k, v)| (k, value_from(v))).collect())
        },
    }
}

/// `Display` for `serde_json::Value`: a function of what the tree holds. It has no line breaks:
/// those in a text are escaped. A tree that nests less deep than the parser's limit reads back as
/// what it was but for its numbers, which are read as where they stand alone, the whole ones as
/// themselves.
#[verifier::external_body]
fn value_text(value: &serde_json::Value) -> (r: String)
    ensures
        r@ == json_printed(contents(*value)),
        !r@.contains('\n') && !r@.contains('\r'),
        readable(contents(*value), 100) ==> reads_back(r@, contents(*value)),
{
    value.to_string()
}

/// Reads a JSON text.
pub fn parse_json(text: &str) -> (r: Result<Json, String>)
    ensures
        match r {
            Ok(json) => json_read(text@) == Ok::<JsonView, Seq<char>>(json@) && ordered(json@),
            Err(e) => json_read(text@) == Err::<JsonView, Seq<char>>(e@),
        },
{
    match read_value(text) {
        Ok(value) => Ok(json_from(value)),
        Err(error) => Err(error_text(error)),
    }
}

/// Prints a value in the compact form.
pub fn json_text(json: &Json) -> (r: String)
    ensures
        ordered(json@) ==> r@ == json_printed(json@),
        !r@.contains('\n') && !r@.contains('\r'),
        ordered(json@) && readable(json@, 100) ==> reads_back(r@, json@),
{
    value_text(&value_from(json.copied()))
}

/// The member of an object under `key`: the last one, where the key stands there twice.
pub open spec fn member(members: Seq<(Seq<char>, JsonView)>, key: Seq<char>) -> Option<JsonView>
    decreases members.len(),
{
    if members.len() == 0 {
        None
    } else if members.last().0 == key {
        Some(members.last().1)
    } else {
        member(members.drop_last(), key)
    }
}

/// Under strictly ascending keys, each member is found under its own.
pub proof fn lemma_member(members: Seq<(Seq<char>, JsonView)>, i: int)
    requires
        0 <= i < members.len(),
        ordered(JsonView::Object(members)),
    ensures
        member(members, members[i].0) == Some(members[i].1),
    decreases members.len(),
{
    let whole = JsonView::Object(members);
    assert(ordered(whole));
    assert(whole->Object_0 == members);
    if i < members.len() - 1 {
        let less = members.drop_last();
        assert(members.last() == members[members.len() - 1]);
        lemma_order_total(members[i].0, members.last().0);
        assert forall|a: int, b: int| 0 <= a < b < less.len() implies before(
            (#[trigger] less[a]).0,
            (#[trigger] less[b]).0,
        ) by {
            assert(before(members[a].0, members[b].0));
        }
        assert forall|k: int| 0 <= k < less.len() implies ordered((#[trigger] less[k]).1) by {
            assert(ordered(members[k].1));
        }
        lemma_member(less, i);
    }
}

/// What stands under `key`: `Null` where `j` is no object or has no such member.
pub open spec fn field(j: JsonView, key: Seq<char>) -> JsonView {
    match j {
        JsonView::Object(members) => match member(members, key) {
            Some(v) => v,
            None => JsonView::Null,
        },
        _ => JsonView::Null,
    }
}

/// What stands at `index`: `Null` where `j` is no list or is shorter.
pub open spec fn item(j: JsonView, index: int) -> JsonView {
    match j {
        JsonView::List(list) => if 0 <= index < list.len() {
            list[index]
        } else {
            JsonView::Null
        },
        _ => JsonView::Null,
    }
}

/// The text that `j` is.
pub open spec fn as_text(j: JsonView) -> Option<Seq<char>> {
    match j {
        JsonView::Text(s) => Some(s),
        _ => None,
    }
}

/// The unsigned integer that `j` is.
pub open spec fn as_whole(j: JsonView) -> Option<u64> {
    match j {
        JsonView::Number(n) => whole(n),
        _ => None,
    }
}

/// The number that `j` is, whole or not.
pub open spec fn as_number(j: JsonView) -> Option<serde_json::Number> {
    match j {
        JsonView::Number(n) => Some(n),
        _ => None,
    }
}

/// The flag that `j` is.
pub open spec fn as_flag(j: JsonView) -> Option<bool> {
    match j {
        JsonView::Flag(b) => Some(b),
        _ => None,
    }
}

/// The list that `j` is.
pub open spec fn as_list(j: JsonView) -> Option<Seq<JsonView>> {
    match j {
        JsonView::List(list) => Some(list),
        _ => None,
    }
}

impl Json {
    /// What stands under `key`: `Null` where this is no object or has no such member.
    pub fn field(&self, key: &str) -> (r: &Json)
        ensures
            r@ == field(self@, key@),
    {
        if let Json::Object(members) = self {
            proof {
                lemma_member_views(members@);
            }
            let ghost views = member_views(members@);
            let mut i: usize = members.len();
            assert(views.take(i as int) =~= views);
            while i > 0
                invariant
                    i <= members@.len(),
                    views == member_views(members@),
                    views.len() == members@.len(),
                    forall|j: int|
                        0 <= j < members@.len() ==> #[trigger] views[j] == (
                            members@[j].0@,
                            members@[j].1@,
                        ),
                    member(views.take(i as int), key@) == member(views, key@),
                    self@ == JsonView::Object(views),
                decreases i,
            {
                i -= 1;
                let ghost part = views.take(i + 1);
                assert(part.last() == views[i as int]);
                assert(part.drop_last() =~= views.take(i as int));
                if same(members[i].0.as_str(), key) {
                    return &members[i].1;
                }
            }
        }
        &Json::Null
    }

    /// What stands at `index`: `Null` where this is no list or is shorter.
    pub fn item(&self, index: usize) -> (r: &Json)
        ensures
            r@ == item(self@, index as int),
    {
        if let Json::List(list) = self {
            proof {
                lemma_json_views(list@);
            }
            if index < list.len() {
                return &list[index];
            }
        }
        &Json::Null
    }

    /// The text that this is.
    pub fn as_text(&self) -> (r: Option<&String>)
        ensures
            match r {
                Some(s) => as_text(self@) == Some(s@),
                None => as_text(self@) is None,
            },
    {
        match self {
            Json::Text(s) => Some(s),
            _ => None,
        }
    }

    /// The unsigned integer that this is.
    pub fn as_whole(&self) -> (r: Option<u64>)
        ensures
            r == as_whole(self@),
    {
        match self {
            Json::Number(n) => number_as_u64(n),
            _ => None,
        }
    }

    /// The flag that this is.
    pub fn as_flag(&self) -> (r: Option<bool>)
        ensures
            r == as_flag(self@),
    {
        match self {
            Json::Flag(b) => Some(*b),
            _ => None,
        }
    }

    /// The number that this is, whole or not.
    pub fn as_number(&self) -> (r: Option<serde_json::Number>)
        ensures
            r == as_number(self@),
    {
        match self {
            Json::Number(n) => Some(number_clone(n)),
            _ => None,
        }
    }

    /// The list that this is.
    pub fn as_list(&self) -> (r: Option<&Vec<Json>>)
        ensures
            match r {
                Some(list) => as_list(self@) == Some(json_views(list@)),
                None => as_list(self@) is None,
            },
    {
        match self {
            Json::List(list) => Some(list),
            _ => None,
        }
    }

    /// The number `n`.
    pub fn number(n: u64) -> (r: Json)
        ensures
            r@ == JsonView::Number(number_of(n)),
            as_whole(r@) == Some(n),
    {
        Json::Number(number_from(n))
    }
}

impl Json {
    /// The number `n`, which may be negative.
    pub fn signed(n: i64) -> (r: Json)
        ensures
            r@ == JsonView::Number(signed_number_of(n)),
    {
        Json::Number(number_from_signed(n))
    }
}

impl Copied for Json {
    fn copied(&self) -> (r: Json)
        decreases self,
    {
        match self {
            Json::Null => Json::Null,
            Json::Flag(b) => Json::Flag(*b),
            Json::Number(n) => Json::Number(number_clone(n)),
            Json::Text(s) => Json::Text(s.clone()),
            Json::List(list) => {
                let mut out: Vec<Json> = Vec::new();
                let mut i: usize = 0;
                while i < list.len()
                    invariant
                        i <= list@.len(),
                        json_views(out@) == json_views(list@.take(i as int)),
                        *self == Json::List(*list),
                    decreases list@.len() - i,
                {
                    let ghost had = out@;
                    assert(decreases_to!(*self => self->List_0));
                    assert(decreases_to!(list => list@));
                    assert(decreases_to!(list@ => list@[i as int]));
                    out.push(list[i].copied());
                    assert(out@.drop_last() =~= had);
                    assert(list@.take(i + 1).drop_last() =~= list@.take(i as int));
                    i += 1;
                }
                assert(list@.take(i as int) =~= list@);
                Json::List(out)
            },
            Json::Object(members) => {
                let mut out: Vec<(String, Json)> = Vec::new();
                let mut i: usize = 0;
                while i < members.len()
                    invariant
                        i <= members@.len(),
                        member_views(out@) == member_views(members@.take(i as int)),
                        *self == Json::Object(*members),
                    decreases members@.len() - i,
                {
                    let ghost had = out@;
                    assert(decreases_to!(*self => self->Object_0));
                    assert(decreases_to!(members => members@));
                    assert(decreases_to!(members@ => members@[i as int]));
                    assert(decreases_to!(members@[i as int] => members@[i as int].1));
                    out.push((members[i].0.clone(), members[i].1.copied()));
                    assert(out@.drop_last() =~= had);
                    assert(members@.take(i + 1).drop_last() =~= members@.take(i as int));
                    i += 1;
                }
                assert(members@.take(i as int) =~= members@);
                Json::Object(out)
            },
        }
    }
}

/// The views of members whose keys are borrowed.
pub open spec fn pairs(members: Seq<(&str, Json)>) -> Seq<(Seq<char>, JsonView)> {
    members.map_values(|p: (&str, Json)| (p.0@, p.1@))
}

/// An object with these members.
pub fn object(members: Vec<(&str, Json)>) -> (r: Json)
    ensures
        r@ == JsonView::Object(pairs(members@)),
{
    let mut out: Vec<(String, Json)> = Vec::new();
    let mut i: usize = 0;
    while i < members.len()
        invariant
            i <= members@.len(),
            out@.len() == i,
            forall|j: int|
                0 <= j < i ==> (#[trigger] out@[j]).0@ == members@[j].0@ && out@[j].1@
                    == members@[j].1@,
        decreases members@.len() - i,
    {
        out.push((members[i].0.to_owned(), members[i].1.copied()));
        i += 1;
    }
    proof {
        lemma_member_views(out@);
        assert(member_views(out@) =~= pairs(members@));
    }
    Json::Object(out)
}

/// A text.
pub fn text(s: &str) -> (r: Json)
    ensures
        r@ == JsonView::Text(s@),
{
    Json::Text(s.to_owned())
}

/// A list with these items.
pub fn list(items: Vec<Json>) -> (r: Json)
    ensures
        r@ == JsonView::List(views(items@)),
{
    proof {
        lemma_json_views(items@);
        assert(json_views(items@) =~= views(items@));
    }
    Json::List(items)
}

proof fn lemma_keys_ascend(members: Seq<(Seq<char>, JsonView)>, a: int, b: int)
    requires
        0 <= a < b < members.len(),
        forall|i: int| 0 < i < members.len() ==> before(members[i - 1].0, #[trigger] members[i].0),
    ensures
        before(members[a].0, members[b].0),
    decreases b - a,
{
    if a + 1 < b {
        lemma_keys_ascend(members, a, b - 1);
        lemma_order_transitive(members[a].0, members[b - 1].0, members[b].0);
    }
}

/// An object whose keys ascend from each to the next is in order, if its members are.
pub proof fn lemma_object_is_ordered(members: Seq<(Seq<char>, JsonView)>)
    requires
        forall|i: int| 0 < i < members.len() ==> before(members[i - 1].0, #[trigger] members[i].0),
        forall|i: int| 0 <= i < members.len() ==> ordered((#[trigger] members[i]).1),
    ensures
        ordered(JsonView::Object(members)),
{
    assert forall|a: int, b: int| 0 <= a < b < members.len() implies before(
        (#[trigger] members[a]).0,
        (#[trigger] members[b]).0,
    ) by {
        lemma_keys_ascend(members, a, b);
    }
    let j = JsonView::Object(members);
    assert(j->Object_0 == members);
}

/// A list is in order, if its items are.
pub proof fn lemma_list_is_ordered(items: Seq<JsonView>)
    requires
        forall|i: int| 0 <= i < items.len() ==> ordered(#[trigger] items[i]),
    ensures
        ordered(JsonView::List(items)),
{
    let j = JsonView::List(items);
    assert(j->List_0 == items);
}

} // verus!
