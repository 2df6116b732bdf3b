//! JSON values and their text, by way of `serde_json`.
use vstd::prelude::*;

use crate::json::items_view;
use crate::json::lemma_array_view;
use crate::json::lemma_object_view;
use crate::json::members_view;
use crate::json::object_of;
use crate::json::set_member;
use crate::json::Json;
use crate::json::JsonNumber;
use crate::json::JsonView;
use crate::json::NumberView;

verus! {

/// `serde_json::Value`, carried as it is.
#[verifier::external_type_specification]
#[verifier::external_body]
pub struct ExValue(serde_json::Value);

/// `serde_json::Number`, carried as it is.
#[verifier::external_type_specification]
#[verifier::external_body]
pub struct ExNumber(serde_json::Number);

/// What a `serde_json::Value` holds.
pub uninterp spec fn value_view(v: serde_json::Value) -> JsonView;

/// What a `serde_json::Number` holds.
pub uninterp spec fn number_view(n: serde_json::Number) -> NumberView;

/// What `serde_json::from_str` makes of a text: a value, or the message of its error.
pub uninterp spec fn json_parsed(text: Seq<char>) -> Result<JsonView, Seq<char>>;

/// What `serde_json::from_str` makes of the text of a number.
pub uninterp spec fn number_parsed(text: Seq<char>) -> Option<NumberView>;

/// The compact text that `serde_json` writes for a value.
pub uninterp spec fn json_text(v: JsonView) -> Seq<char>;

/// The bits of the double that `serde_json` gives for a number.
pub uninterp spec fn double_bits(n: NumberView) -> u64;

/// The outermost layer of a `serde_json::Value`.
pub enum ValueShape {
    /// `null`.
    Null,
    /// A boolean.
    Bool(bool),
    /// A number.
    Number(serde_json::Number),
    /// A string.
    String(String),
    /// An array.
    Array(Vec<serde_json::Value>),
    /// An object, as its members in the order in which the map holds them.
    Object(Vec<(String, serde_json::Value)>),
}

/// The models of a list of `serde_json` values.
pub open spec fn value_items(v: Seq<serde_json::Value>) -> Seq<JsonView> {
    v.map_values(|x: serde_json::Value| value_view(x))
}

/// The models of a list of `serde_json` members.
pub open spec fn value_members(v: Seq<(String, serde_json::Value)>) -> Seq<(Seq<char>, JsonView)> {
    v.map_values(|m: (String, serde_json::Value)| (m.0@, value_view(m.1)))
}

/// What a layer holds.
pub open spec fn shape_view(s: ValueShape) -> JsonView {
    match s {
        ValueShape::Null => JsonView::Null,
        ValueShape::Bool(b) => JsonView::Bool(b),
        ValueShape::Number(n) => JsonView::Number(number_view(n)),
        ValueShape::String(s) => JsonView::String(s@),
        ValueShape::Array(v) => JsonView::Array(value_items(v@)),
        ValueShape::Object(v) => JsonView::Object(value_members(v@)),
    }
}

/// `serde_json::from_str` on a text: the value it denotes, or what is wrong with it. Both
/// depend on the text alone.
#[verifier::external_body]
fn parse_value(text: &str) -> (r: Result<serde_json::Value, String>)
    ensures
        match r {
            Ok(v) => json_parsed(text@) == Ok::<JsonView, Seq<char>>(value_view(v)),
            Err(e) => json_parsed(text@) == Err::<JsonView, Seq<char>>(e@),
        },
{
    serde_json::from_str::<serde_json::Value>(text).map_err(|e| e.to_string())
}

/// The variants of `serde_json::Value`, told apart.
#[verifier::external_body]
fn open_value(v: serde_json::Value) -> (r: ValueShape)
    ensures
        shape_view(r) == value_view(v),
{
    match v {
        serde_json::Value::Null => ValueShape::Null,
        serde_json::Value::Bool(b) => ValueShape::Bool(b),
        serde_json::Value::Number(n) => ValueShape::Number(n),
        serde_json::Value::String(s) => ValueShape::String(s),
        serde_json::Value::Array(items) => ValueShape::Array(items),
        serde_json::Value::Object(members) => ValueShape::Object(members.into_iter().collect()),
    }
}

/// The variants of `serde_json::Value`, put together. Members must come in the order of
/// their keys, each key once: then the map keeps them as they are.
#[verifier::external_body]
fn make_value(s: ValueShape) -> (r: serde_json::Value)
    requires
        s matches ValueShape::Object(m) ==> crate::json::sorted_keys(value_members(m@)),
    ensures
        value_view(r) == shape_view(s),
{
    match s {
        ValueShape::Null => serde_json::Value::Null,
        ValueShape::Bool(b) => serde_json::Value::Bool(b),
        ValueShape::Number(n) => serde_json::Value::Number(n),
        ValueShape::String(s) => serde_json::Value::String(s),
        ValueShape::Array(items) => serde_json::Value::Array(items),
        ValueShape::Object(members) => serde_json::Value::Object(members.into_iter().collect()),
    }
}

/// The kinds of `serde_json::Number`, told apart by `as_u64` and `as_i64`; `to_string` gives
/// the text of one that is neither.
#[verifier::external_body]
fn open_number(n: &serde_json::Number) -> (r: JsonNumber)
    ensures
        r@ == number_view(*n),
{
    match (n.as_u64(), n.as_i64()) {
        (Some(u), _) => JsonNumber::PosInt(u),
        (None, Some(i)) => JsonNumber::NegInt(i),
        (None, None) => JsonNumber::Float(n.to_string()),
    }
}

/// `serde_json::Number::from` on an unsigned integer keeps it.
#[verifier::external_body]
fn number_from_u64(n: u64) -> (r: serde_json::Number)
    ensures
        number_view(r) == NumberView::PosInt(n as nat),
{
    serde_json::Number::from(n)
}

/// `serde_json::Number::from` on a signed integer keeps it; one that is not negative counts
/// as unsigned.
#[verifier::external_body]
fn number_from_i64(n: i64) -> (r: serde_json::Number)
    ensures
        number_view(r) == (if n < 0 {
            NumberView::NegInt(n as int)
        } else {
            NumberView::PosInt(n as nat)
        }),
{
    serde_json::Number::from(n)
}

/// `serde_json::from_str` on the text of a number: the number, which depends on the text
/// alone, or nothing where the text is none.
#[verifier::external_body]
fn parse_number(text: &str) -> (r: Option<serde_json::Number>)
    ensures
        match r {
            Some(n) => number_parsed(text@) == Some(number_view(n)),
            None => number_parsed(text@) is None,
        },
{
    serde_json::from_str::<serde_json::Number>(text).ok()
}

/// `to_string` on a `serde_json::Value`: its compact text, which depends on the value alone.
#[verifier::external_body]
fn value_to_text(v: &serde_json::Value) -> (r: String)
    ensures
        r@ == json_text(value_view(*v)),
{
    v.to_string()
}

/// `serde_json::Number::as_f64`, as the bits of the double, which every number has and which
/// depend on the number alone.
#[verifier::external_body]
fn bits_of_number(n: &serde_json::Number) -> (r: Option<u64>)
    ensures
        r == Some(double_bits(number_view(*n))),
{
    n.as_f64().map(|x| x.to_bits())
}

// ---------------------------------------------------------------------------
// From text
// ---------------------------------------------------------------------------

fn from_value(v: serde_json::Value) -> (r: Json)
    ensures
        r@ == value_view(v),
    decreases value_view(v),
{
    let ghost whole = value_view(v);
    match open_value(v) {
        ValueShape::Null => Json::Null,
        ValueShape::Bool(b) => Json::Bool(b),
        ValueShape::Number(n) => Json::Number(open_number(&n)),
        ValueShape::String(s) => Json::String(s),
        ValueShape::Array(items) => {
            let ghost all = value_items(items@);
            let ghost source = items@;
            let mut out: Vec<Json> = Vec::new();
            for item in it: items
                invariant
                    whole == value_view(v),
                    whole == JsonView::Array(all),
                    all == value_items(source),
                    it.seq() == source,
                    items_view(out@) == all.take(it.index()),
            {
                let ghost done = out@;
                let ghost i = it.index();
                assert(value_view(item) == all[i]);
                assert(decreases_to!(whole => whole->Array_0));
                assert(decreases_to!(whole->Array_0 => whole->Array_0[i]));
                let j = from_value(item);
                out.push(j);
                assert(items_view(out@) =~= items_view(done).push(j@));
                assert(all.take(i).push(all[i]) =~= all.take(i + 1));
            }
            assert(all.take(all.len() as int) =~= all);
            proof {
                lemma_array_view(out);
            }
            Json::Array(out)
        },
        ValueShape::Object(members) => {
            let ghost all = value_members(members@);
            let ghost source = members@;
            let mut out: Vec<(String, Json)> = Vec::new();
            for member in it: members
                invariant
                    whole == value_view(v),
                    whole == JsonView::Object(all),
                    all == value_members(source),
                    it.seq() == source,
                    members_view(out@) == all.take(it.index()),
            {
                let ghost done = out@;
                let ghost i = it.index();
                let (key, value) = member;
                assert((key@, value_view(value)) == all[i]);
                assert(decreases_to!(whole => whole->Object_0));
                assert(decreases_to!(whole->Object_0 => whole->Object_0[i]));
                assert(decreases_to!(whole->Object_0[i] => whole->Object_0[i].1));
                let j = from_value(value);
                out.push((key, j));
                assert(members_view(out@) =~= members_view(done).push((key@, j@)));
                assert(all.take(i).push(all[i]) =~= all.take(i + 1));
            }
            assert(all.take(all.len() as int) =~= all);
            proof {
                lemma_object_view(out);
            }
            Json::Object(out)
        },
    }
}

impl Json {
    /// The value that a text denotes, or what is wrong with the text.
    pub fn parse(text: &str) -> (r: Result<Json, String>)
        ensures
            match r {
                Ok(j) => json_parsed(text@) == Ok::<JsonView, Seq<char>>(j@),
                Err(e) => json_parsed(text@) == Err::<JsonView, Seq<char>>(e@),
            },
    {
        match parse_value(text) {
            Ok(v) => Ok(from_value(v)),
            Err(e) => Err(e),
        }
    }
}

// ---------------------------------------------------------------------------
// To text
// ---------------------------------------------------------------------------

/// A number as it is written: one that is kept as text counts as the number that the text
/// denotes, and as `null` where it denotes none.
pub open spec fn written_number(n: NumberView) -> JsonView {
    match n {
        NumberView::PosInt(n) => JsonView::Number(NumberView::PosInt(n)),
        NumberView::NegInt(n) => JsonView::Number(
            if n < 0 {
                NumberView::NegInt(n)
            } else {
                NumberView::PosInt(n as nat)
            },
        ),
        NumberView::Float(t) => match number_parsed(t) {
            Some(n) => JsonView::Number(n),
            None => JsonView::Null,
        },
    }
}

/// A value as it is written: members in the order of their keys, a later one in place of an
/// earlier one with its key.
pub open spec fn written(v: JsonView) -> JsonView
    decreases v,
{
    match v {
        JsonView::Number(n) => written_number(n),
        JsonView::Array(x) => JsonView::Array(
            Seq::new(
                x.len(),
                |i: int|
                    if 0 <= i < x.len() {
                        written(x[i])
                    } else {
                        JsonView::Null
                    },
            ),
        ),
        JsonView::Object(m) => JsonView::Object(object_of(written_entries(m))),
        _ => v,
    }
}

/// Members with each value as it is written, in the order in which they come.
pub open spec fn written_entries(m: Seq<(Seq<char>, JsonView)>) -> Seq<(Seq<char>, JsonView)>
    decreases m,
{
    Seq::new(
        m.len(),
        |i: int|
            if 0 <= i < m.len() {
                (m[i].0, written(m[i].1))
            } else {
                (Seq::empty(), JsonView::Null)
            },
    )
}

/// Members with each value as it is written.
pub open spec fn written_members(m: Seq<(Seq<char>, JsonView)>) -> Seq<(Seq<char>, JsonView)> {
    m.map_values(|e: (Seq<char>, JsonView)| (e.0, written(e.1)))
}

proof fn lemma_same_keys(
    a: Seq<(Seq<char>, JsonView)>,
    b: Seq<(Seq<char>, JsonView)>,
    k: Seq<char>,
)
    requires
        a.len() == b.len(),
        forall|i: int| 0 <= i < a.len() ==> (#[trigger] a[i]).0 == b[i].0,
    ensures
        crate::json::member_index(a, k) == crate::json::member_index(b, k),
        crate::json::place_of(a, k) == crate::json::place_of(b, k),
    decreases a.len(),
{
    if a.len() > 0 {
        let x = a.drop_last();
        let y = b.drop_last();
        assert forall|i: int| 0 <= i < x.len() implies (#[trigger] x[i]).0 == y[i].0 by {
            assert(x[i] == a[i]);
        }
        lemma_same_keys(x, y, k);
        assert(a[a.len() - 1].0 == b[a.len() - 1].0);
    }
}

proof fn lemma_written_object(m: Seq<(Seq<char>, JsonView)>)
    ensures
        written_members(object_of(m)) == object_of(written_members(m)),
        crate::json::sorted_keys(object_of(m)),
    decreases m.len(),
{
    if m.len() > 0 {
        let t = m.drop_last();
        lemma_written_object(t);
        let (k, v) = m.last();
        let o = object_of(t);
        let w = written_members(o);
        assert(written_members(m).drop_last() =~= written_members(t));
        lemma_same_keys(o, w, k);
        crate::json::lemma_member_index(o, k);
        crate::json::law_with_member(o, k, v, k);
        crate::json::lemma_place_in_range(o, k);
        match crate::json::member_index(o, k) {
            Some(i) => {
                assert(written_members(o.update(i, (k, v))) =~= w.update(i, (k, written(v))));
            },
            None => {
                let p = crate::json::place_of(o, k);
                assert(written_members(o.insert(p, (k, v))) =~= w.insert(p, (k, written(v))));
            },
        }
    } else {
        assert(written_members(object_of(m)) =~= object_of(written_members(m)));
    }
}

fn to_number(n: &JsonNumber) -> (r: Option<serde_json::Number>)
    ensures
        written_number(n@) == (match r {
            Some(n) => JsonView::Number(number_view(n)),
            None => JsonView::Null,
        }),
{
    match n {
        JsonNumber::PosInt(n) => Some(number_from_u64(*n)),
        JsonNumber::NegInt(n) => Some(number_from_i64(*n)),
        JsonNumber::Float(t) => parse_number(t.as_str()),
    }
}

fn to_value(j: &Json) -> (r: serde_json::Value)
    ensures
        value_view(r) == written(j@),
    decreases j@,
{
    match j {
        Json::Null => make_value(ValueShape::Null),
        Json::Bool(b) => make_value(ValueShape::Bool(*b)),
        Json::Number(n) => match to_number(n) {
            Some(n) => make_value(ValueShape::Number(n)),
            None => make_value(ValueShape::Null),
        },
        Json::String(s) => make_value(ValueShape::String(s.clone())),
        Json::Array(items) => {
            proof {
                lemma_array_view(*items);
            }
            let ghost all = items_view(items@);
            let mut out: Vec<serde_json::Value> = Vec::new();
            let mut i: usize = 0;
            while i < items.len()
                invariant
                    i <= items@.len(),
                    j@ == JsonView::Array(all),
                    all == items_view(items@),
                    value_items(out@) == all.take(i as int).map_values(|v: JsonView| written(v)),
                decreases items@.len() - i,
            {
                let ghost done = out@;
                assert(all[i as int] == items@[i as int]@);
                assert(decreases_to!(j@ => j@->Array_0));
                assert(decreases_to!(j@->Array_0 => j@->Array_0[i as int]));
                let v = to_value(&items[i]);
                out.push(v);
                assert(value_items(out@) =~= value_items(done).push(value_view(v)));
                assert(all.take(i + 1).map_values(|v: JsonView| written(v)) =~= all.take(
                    i as int,
                ).map_values(|v: JsonView| written(v)).push(written(all[i as int])));
                i = i + 1;
            }
            proof {
                assert(all.take(all.len() as int) =~= all);
                assert(written(j@)->Array_0 =~= all.map_values(|v: JsonView| written(v)));
            }
            make_value(ValueShape::Array(out))
        },
        Json::Object(members) => {
            proof {
                lemma_object_view(*members);
            }
            let ghost all = members_view(members@);
            let mut vals: Vec<(String, serde_json::Value)> = Vec::new();
            let sorted = sorted_members(members);
            let ghost order = members_view(sorted@);
            let mut i: usize = 0;
            assert(value_members(vals@) =~= written_members(order.take(0)));
            while i < sorted.len()
                invariant
                    i <= sorted@.len(),
                    j@ == JsonView::Object(all),
                    order == members_view(sorted@),
                    order == object_of(all),
                    value_members(vals@) == written_members(order.take(i as int)),
                decreases sorted@.len() - i,
            {
                let ghost done = vals@;
                proof {
                    lemma_from_members(all, i as int);
                    let at = choose|at: int| 0 <= at < all.len() && all[at] == order[i as int];
                    assert(order[i as int] == (sorted@[i as int].0@, sorted@[i as int].1@));
                    assert(decreases_to!(j@ => j@->Object_0));
                    assert(decreases_to!(j@->Object_0 => j@->Object_0[at]));
                    assert(decreases_to!(j@->Object_0[at] => j@->Object_0[at].1));
                }
                let k = sorted[i].0.clone();
                let v = to_value(&sorted[i].1);
                vals.push((k, v));
                assert(value_members(vals@) =~= value_members(done).push((k@, value_view(v))));
                assert(written_members(order.take(i + 1)) =~= written_members(
                    order.take(i as int),
                ).push((k@, written(order[i as int].1))));
                i = i + 1;
            }
            proof {
                assert(order.take(order.len() as int) =~= order);
                lemma_written_object(all);
                lemma_written_object(written_members(all));
                assert(written_entries(all) =~= written_members(all));
            }
            make_value(ValueShape::Object(vals))
        },
    }
}

/// Every member of an object that is built comes from one of the pairs.
proof fn lemma_from_members(m: Seq<(Seq<char>, JsonView)>, i: int)
    requires
        0 <= i < object_of(m).len(),
    ensures
        exists|at: int| 0 <= at < m.len() && m[at] == object_of(m)[i],
    decreases m.len(),
{
    if m.len() > 0 {
        let t = m.drop_last();
        let (k, v) = m.last();
        let o = object_of(t);
        crate::json::lemma_member_index(o, k);
        crate::json::lemma_place_in_range(o, k);
        let (at, from) = match crate::json::member_index(o, k) {
            Some(p) => (p, i),
            None => {
                let p = crate::json::place_of(o, k);
                (p, if i < p {
                    i
                } else {
                    i - 1
                })
            },
        };
        if i == at {
            assert(m[m.len() - 1] == object_of(m)[i]);
        } else {
            assert(object_of(m)[i] == o[from]);
            lemma_from_members(t, from);
            let a = choose|a: int| 0 <= a < t.len() && t[a] == o[from];
            assert(m[a] == object_of(m)[i]);
        }
    }
}

fn sorted_members(members: &Vec<(String, Json)>) -> (r: Vec<(String, Json)>)
    ensures
        members_view(r@) == object_of(members_view(members@)),
{
    let ghost all = members_view(members@);
    let mut out: Vec<(String, Json)> = Vec::new();
    let mut i: usize = 0;
    assert(members_view(out@) =~= object_of(all.take(0)));
    while i < members.len()
        invariant
            i <= members@.len(),
            all == members_view(members@),
            members_view(out@) == object_of(all.take(i as int)),
        decreases members@.len() - i,
    {
        let k = members[i].0.clone();
        let v = members[i].1.clone();
        assert(all.take(i + 1).drop_last() =~= all.take(i as int));
        assert(all.take(i + 1).last() == (k@, v@));
        set_member(&mut out, k, v);
        i = i + 1;
    }
    assert(all.take(all.len() as int) =~= all);
    out
}

/// The place of a double in the order of all doubles, from its bits.
pub open spec fn rank_of(bits: u64) -> int {
    if bits < 0x8000_0000_0000_0000u64 {
        bits as int
    } else {
        0x8000_0000_0000_0000 - bits
    }
}

/// The place of a number in the order of all numbers; none where a text denotes no number.
pub open spec fn number_rank(n: NumberView) -> Option<int> {
    match written_number(n) {
        JsonView::Number(n) => Some(rank_of(double_bits(n))),
        _ => None,
    }
}

impl JsonNumber {
    /// The place of this number in the order of all numbers.
    pub fn rank(&self) -> (r: Option<i64>)
        ensures
            match r {
                Some(k) => number_rank(self@) == Some(k as int),
                None => number_rank(self@) is None,
            },
    {
        match to_number(self) {
            None => None,
            Some(n) => match bits_of_number(&n) {
                None => None,
                Some(bits) => if bits < 0x8000_0000_0000_0000 {
                    Some(bits as i64)
                } else {
                    Some(-((bits - 0x8000_0000_0000_0000) as i64))
                },
            },
        }
    }
}

impl Json {
    /// The compact text of this value.
    pub fn to_text(&self) -> (r: String)
        ensures
            r@ == json_text(written(self@)),
    {
        value_to_text(&to_value(self))
    }
}

} // verus!
