//! JSON values as the library reads and builds them.
use vstd::prelude::*;

use crate::text::pairs_view;
use crate::text::same;
use crate::text::str_before;
use crate::text::views;

verus! {

/// A JSON number: a non-negative integer, a negative integer, or anything else, which is
/// kept as its shortest decimal text.
#[derive(Debug)]
pub enum JsonNumber {
    /// An integer that is not negative.
    PosInt(u64),
    /// An integer below zero.
    NegInt(i64),
    /// A number with a fraction or an exponent, in decimal.
    Float(String),
}

/// A JSON value. The members of an object are kept in the order of their keys.
#[derive(Debug)]
pub enum Json {
    /// `null`.
    Null,
    /// `true` or `false`.
    Bool(bool),
    /// A number.
    Number(JsonNumber),
    /// A string.
    String(String),
    /// An array.
    Array(Vec<Json>),
    /// An object, as its members.
    Object(Vec<(String, Json)>),
}

/// The model of a JSON number.
pub enum NumberView {
    /// An integer that is not negative.
    PosInt(nat),
    /// An integer below zero.
    NegInt(int),
    /// Any other number, by its decimal text.
    Float(Seq<char>),
}

/// The model of a JSON value.
pub enum JsonView {
    /// `null`.
    Null,
    /// `true` or `false`.
    Bool(bool),
    /// A number.
    Number(NumberView),
    /// A string.
    String(Seq<char>),
    /// An array.
    Array(Seq<JsonView>),
    /// An object, as its members.
    Object(Seq<(Seq<char>, JsonView)>),
}

impl View for JsonNumber {
    type V = NumberView;

    open spec fn view(&self) -> NumberView {
        match *self {
            JsonNumber::PosInt(n) => NumberView::PosInt(n as nat),
            JsonNumber::NegInt(n) => NumberView::NegInt(n as int),
            JsonNumber::Float(t) => NumberView::Float(t@),
        }
    }
}

/// The model of `j`.
pub open spec fn json_view(j: Json) -> JsonView
    decreases j,
{
    match j {
        Json::Null => JsonView::Null,
        Json::Bool(b) => JsonView::Bool(b),
        Json::Number(n) => JsonView::Number(n@),
        Json::String(s) => JsonView::String(s@),
        Json::Array(items) => JsonView::Array(
            Seq::new(
                items@.len(),
                |i: int|
                    if 0 <= i < items@.len() {
                        json_view(items@[i])
                    } else {
                        JsonView::Null
                    },
            ),
        ),
        Json::Object(members) => JsonView::Object(
            Seq::new(
                members@.len(),
                |i: int|
                    if 0 <= i < members@.len() {
                        (members@[i].0@, json_view(members@[i].1))
                    } else {
                        (Seq::empty(), JsonView::Null)
                    },
            ),
        ),
    }
}

impl View for Json {
    type V = JsonView;

    open spec fn view(&self) -> JsonView {
        json_view(*self)
    }
}

/// The models of a list of values.
pub open spec fn items_view(v: Seq<Json>) -> Seq<JsonView> {
    v.map_values(|j: Json| j@)
}

/// The models of a list of members.
pub open spec fn members_view(v: Seq<(String, Json)>) -> Seq<(Seq<char>, JsonView)> {
    v.map_values(|m: (String, Json)| (m.0@, m.1@))
}

/// An array's model is made of the models of its items.
pub proof fn lemma_array_view(items: Vec<Json>)
    ensures
        Json::Array(items)@ == JsonView::Array(items_view(items@)),
{
    assert(Json::Array(items)@->Array_0 =~= items_view(items@));
}

/// An object's model is made of its keys and the models of its values.
pub proof fn lemma_object_view(members: Vec<(String, Json)>)
    ensures
        Json::Object(members)@ == JsonView::Object(members_view(members@)),
{
    assert(Json::Object(members)@->Object_0 =~= members_view(members@));
}

impl Clone for JsonNumber {
    fn clone(&self) -> (r: Self)
        ensures
            r == *self,
    {
        match self {
            JsonNumber::PosInt(n) => JsonNumber::PosInt(*n),
            JsonNumber::NegInt(n) => JsonNumber::NegInt(*n),
            JsonNumber::Float(t) => JsonNumber::Float(t.clone()),
        }
    }
}

impl Clone for Json {
    fn clone(&self) -> (r: Self)
        ensures
            r@ == self@,
        decreases self,
    {
        match self {
            Json::Null => Json::Null,
            Json::Bool(b) => Json::Bool(*b),
            Json::Number(n) => Json::Number(n.clone()),
            Json::String(s) => Json::String(s.clone()),
            Json::Array(items) => {
                let mut out: Vec<Json> = Vec::new();
                let mut i: usize = 0;
                while i < items.len()
                    invariant
                        i <= items@.len(),
                        *self == Json::Array(*items),
                        items_view(out@) == items_view(items@).take(i as int),
                    decreases items@.len() - i,
                {
                    let ghost before = out@;
                    assert(decreases_to!(*self => self->Array_0));
                    let item = items[i].clone();
                    out.push(item);
                    assert(items_view(out@) == items_view(before).push(item@));
                    i = i + 1;
                }
                proof {
                    assert(items_view(items@).take(items@.len() as int) == items_view(items@));
                    lemma_array_view(out);
                    lemma_array_view(*items);
                }
                Json::Array(out)
            },
            Json::Object(members) => {
                let mut out: Vec<(String, Json)> = Vec::new();
                let mut i: usize = 0;
                while i < members.len()
                    invariant
                        i <= members@.len(),
                        *self == Json::Object(*members),
                        members_view(out@) == members_view(members@).take(i as int),
                    decreases members@.len() - i,
                {
                    let ghost before = out@;
                    let key = members[i].0.clone();
                    assert(decreases_to!(*self => self->Object_0));
                    let value = members[i].1.clone();
                    out.push((key, value));
                    assert(members_view(out@) == members_view(before).push((key@, value@)));
                    i = i + 1;
                }
                proof {
                    assert(members_view(members@).take(members@.len() as int) == members_view(
                        members@,
                    ));
                    lemma_object_view(out);
                    lemma_object_view(*members);
                }
                Json::Object(out)
            },
        }
    }
}

/// The values of a list, copied.
pub fn clone_items(v: &Vec<Json>) -> (r: Vec<Json>)
    ensures
        items_view(r@) == items_view(v@),
{
    let mut out: Vec<Json> = Vec::new();
    let mut i: usize = 0;
    while i < v.len()
        invariant
            i <= v@.len(),
            items_view(out@) == items_view(v@).take(i as int),
        decreases v@.len() - i,
    {
        let ghost before = out@;
        let item = v[i].clone();
        out.push(item);
        assert(items_view(out@) == items_view(before).push(item@));
        i = i + 1;
    }
    assert(items_view(v@).take(v@.len() as int) == items_view(v@));
    out
}

/// The value, if any, copied.
pub fn clone_optional(v: &Option<Json>) -> (r: Option<Json>)
    ensures
        optional_view(r) == optional_view(*v),
{
    match v {
        Some(j) => Some(j.clone()),
        None => None,
    }
}

/// The model of a value that may be absent.
pub open spec fn optional_view(v: Option<Json>) -> Option<JsonView> {
    match v {
        Some(j) => Some(j@),
        None => None,
    }
}

// ---------------------------------------------------------------------------
// Equality
// ---------------------------------------------------------------------------

/// The text of a number that is zero.
pub open spec fn zero_text(t: Seq<char>) -> bool {
    t == "0.0"@ || t == "-0.0"@
}

/// The same number. An integer is never the same as a number with a fraction.
pub open spec fn same_number(a: NumberView, b: NumberView) -> bool {
    match (a, b) {
        (NumberView::Float(x), NumberView::Float(y)) => x == y || (zero_text(x) && zero_text(y)),
        _ => a == b,
    }
}

/// The same value.
pub open spec fn same_json(a: JsonView, b: JsonView) -> bool
    decreases a,
{
    match (a, b) {
        (JsonView::Number(x), JsonView::Number(y)) => same_number(x, y),
        (JsonView::Array(x), JsonView::Array(y)) => {
            x.len() == y.len() && forall|i: int| #![trigger x[i]]
                0 <= i < x.len() ==> same_json(x[i], y[i])
        },
        (JsonView::Object(x), JsonView::Object(y)) => {
            x.len() == y.len() && forall|i: int| #![trigger x[i]]
                0 <= i < x.len() ==> x[i].0 == y[i].0 && same_json(x[i].1, y[i].1)
        },
        _ => a == b,
    }
}

impl JsonNumber {
    fn is_zero_text(t: &String) -> (r: bool)
        ensures
            r == zero_text(t@),
    {
        same(t.as_str(), "0.0") || same(t.as_str(), "-0.0")
    }

    /// Whether both are the same number.
    pub fn same_as(&self, other: &JsonNumber) -> (r: bool)
        ensures
            r == same_number(self@, other@),
    {
        match (self, other) {
            (JsonNumber::PosInt(a), JsonNumber::PosInt(b)) => *a == *b,
            (JsonNumber::NegInt(a), JsonNumber::NegInt(b)) => *a == *b,
            (JsonNumber::Float(a), JsonNumber::Float(b)) => {
                same(a.as_str(), b.as_str()) || (Self::is_zero_text(a) && Self::is_zero_text(b))
            },
            _ => false,
        }
    }
}

impl Json {
    /// Whether both are the same value.
    pub fn same_as(&self, other: &Json) -> (r: bool)
        ensures
            r == same_json(self@, other@),
        decreases self,
    {
        match (self, other) {
            (Json::Null, Json::Null) => true,
            (Json::Bool(a), Json::Bool(b)) => *a == *b,
            (Json::Number(a), Json::Number(b)) => a.same_as(b),
            (Json::String(a), Json::String(b)) => same(a.as_str(), b.as_str()),
            (Json::Array(a), Json::Array(b)) => {
                proof {
                    lemma_array_view(*a);
                    lemma_array_view(*b);
                }
                if a.len() != b.len() {
                    return false;
                }
                let ghost x = items_view(a@);
                let ghost y = items_view(b@);
                let mut i: usize = 0;
                while i < a.len()
                    invariant
                        i <= a@.len(),
                        a@.len() == b@.len(),
                        *self == Json::Array(*a),
                        x == items_view(a@),
                        y == items_view(b@),
                        self@ == JsonView::Array(x),
                        other@ == JsonView::Array(y),
                        forall|k: int| #![trigger x[k]] 0 <= k < i ==> same_json(x[k], y[k]),
                    decreases a@.len() - i,
                {
                    assert(x[i as int] == a@[i as int]@);
                    assert(y[i as int] == b@[i as int]@);
                    if !a[i].same_as(&b[i]) {
                        return false;
                    }
                    i = i + 1;
                }
                true
            },
            (Json::Object(a), Json::Object(b)) => {
                proof {
                    lemma_object_view(*a);
                    lemma_object_view(*b);
                }
                if a.len() != b.len() {
                    return false;
                }
                let ghost x = members_view(a@);
                let ghost y = members_view(b@);
                let mut i: usize = 0;
                while i < a.len()
                    invariant
                        i <= a@.len(),
                        a@.len() == b@.len(),
                        *self == Json::Object(*a),
                        x == members_view(a@),
                        y == members_view(b@),
                        self@ == JsonView::Object(x),
                        other@ == JsonView::Object(y),
                        forall|k: int| #![trigger x[k]]
                            0 <= k < i ==> x[k].0 == y[k].0 && same_json(x[k].1, y[k].1),
                    decreases a@.len() - i,
                {
                    assert(x[i as int] == (a@[i as int].0@, a@[i as int].1@));
                    assert(y[i as int] == (b@[i as int].0@, b@[i as int].1@));
                    if !same(a[i].0.as_str(), b[i].0.as_str()) {
                        return false;
                    }
                    if !a[i].1.same_as(&b[i].1) {
                        return false;
                    }
                    i = i + 1;
                }
                true
            },
            _ => false,
        }
    }
}

/// Every value is the same as itself.
pub proof fn law_same_json_reflexive(a: JsonView)
    ensures
        same_json(a, a),
    decreases a,
{
    match a {
        JsonView::Array(x) => {
            assert forall|i: int| #![trigger x[i]] 0 <= i < x.len() implies same_json(x[i], x[i]) by {
                law_same_json_reflexive(x[i]);
            }
        },
        JsonView::Object(x) => {
            assert forall|i: int| #![trigger x[i]] 0 <= i < x.len() implies same_json(
                x[i].1,
                x[i].1,
            ) by {
                law_same_json_reflexive(x[i].1);
            }
        },
        _ => {},
    }
}

// ---------------------------------------------------------------------------
// Objects
// ---------------------------------------------------------------------------

/// The position of the first member with key `k`.
pub open spec fn member_index(m: Seq<(Seq<char>, JsonView)>, k: Seq<char>) -> Option<int>
    decreases m.len(),
{
    if m.len() == 0 {
        None
    } else {
        match member_index(m.drop_last(), k) {
            Some(i) => Some(i),
            None => if m.last().0 == k {
                Some(m.len() - 1)
            } else {
                None
            },
        }
    }
}

/// `member_index` gives the first position with the key, and `None` only where there is none.
pub proof fn lemma_member_index(m: Seq<(Seq<char>, JsonView)>, k: Seq<char>)
    ensures
        match member_index(m, k) {
            Some(i) => 0 <= i < m.len() && m[i].0 == k && forall|j: int|
                0 <= j < i ==> (#[trigger] m[j]).0 != k,
            None => forall|j: int| 0 <= j < m.len() ==> (#[trigger] m[j]).0 != k,
        },
    decreases m.len(),
{
    if m.len() > 0 {
        let t = m.drop_last();
        lemma_member_index(t, k);
        assert(forall|j: int| 0 <= j < t.len() ==> t[j] == m[j]);
    }
}

/// The value of the member with key `k`.
pub open spec fn member(m: Seq<(Seq<char>, JsonView)>, k: Seq<char>) -> Option<JsonView> {
    match member_index(m, k) {
        Some(i) => Some(m[i].1),
        None => None,
    }
}

/// The value under key `k`, where `v` is an object that has it.
pub open spec fn field(v: JsonView, k: Seq<char>) -> Option<JsonView> {
    match v {
        JsonView::Object(m) => member(m, k),
        _ => None,
    }
}

/// The keys come in ascending order, each once.
pub open spec fn sorted_keys(m: Seq<(Seq<char>, JsonView)>) -> bool {
    forall|i: int, j: int|
        0 <= i < j < m.len() ==> crate::text::before((#[trigger] m[i]).0, (#[trigger] m[j]).0)
}

/// The members in which key `k` has value `v`: the member with that key is replaced, and
/// where there is none, one is put before the first greater key.
pub open spec fn with_member(
    m: Seq<(Seq<char>, JsonView)>,
    k: Seq<char>,
    v: JsonView,
) -> Seq<(Seq<char>, JsonView)> {
    match member_index(m, k) {
        Some(i) => m.update(i, (k, v)),
        None => m.insert(place_of(m, k), (k, v)),
    }
}

/// The position of the first member whose key comes after `k`.
pub open spec fn place_of(m: Seq<(Seq<char>, JsonView)>, k: Seq<char>) -> int
    decreases m.len(),
{
    if m.len() == 0 {
        0
    } else {
        let p = place_of(m.drop_last(), k);
        if p < m.len() - 1 || crate::text::before(k, m.last().0) {
            p
        } else {
            m.len() as int
        }
    }
}

proof fn lemma_place_of(m: Seq<(Seq<char>, JsonView)>, k: Seq<char>)
    ensures
        0 <= place_of(m, k) <= m.len(),
        forall|j: int| 0 <= j < place_of(m, k) ==> !crate::text::before(k, (#[trigger] m[j]).0),
        place_of(m, k) < m.len() ==> crate::text::before(k, m[place_of(m, k)].0),
    decreases m.len(),
{
    if m.len() > 0 {
        let t = m.drop_last();
        lemma_place_of(t, k);
        assert(forall|j: int| 0 <= j < t.len() ==> t[j] == m[j]);
    }
}

/// A new member is put at a position that exists.
pub proof fn lemma_place_in_range(m: Seq<(Seq<char>, JsonView)>, k: Seq<char>)
    ensures
        0 <= place_of(m, k) <= m.len(),
{
    lemma_place_of(m, k);
}

/// Setting a member keeps the keys in order, gives the new value back under its key and
/// changes nothing under any other key.
pub proof fn law_with_member(
    m: Seq<(Seq<char>, JsonView)>,
    k: Seq<char>,
    v: JsonView,
    other: Seq<char>,
)
    requires
        sorted_keys(m),
    ensures
        sorted_keys(with_member(m, k, v)),
        member(with_member(m, k, v), k) == Some(v),
        other != k ==> member(with_member(m, k, v), other) == member(m, other),
{
    let w = with_member(m, k, v);
    lemma_member_index(m, k);
    lemma_member_index(w, k);
    lemma_member_index(m, other);
    lemma_member_index(w, other);
    match member_index(m, k) {
        Some(i) => {
            assert(w[i] == (k, v));
            assert forall|a: int, b: int| 0 <= a < b < w.len() implies crate::text::before(
                (#[trigger] w[a]).0,
                (#[trigger] w[b]).0,
            ) by {
                assert(w[a].0 == m[a].0);
                assert(w[b].0 == m[b].0);
            }
            if other != k {
                assert(forall|j: int| 0 <= j < m.len() ==> (#[trigger] w[j]).0 == m[j].0);
                lemma_unique_position(w, k, i);
                if let Some(j) = member_index(m, other) {
                    assert(w[j] == m[j]);
                    lemma_unique_position(w, other, j);
                } else {
                    if let Some(j) = member_index(w, other) {
                        assert(w[j].0 == m[j].0);
                    }
                }
            } else {
                lemma_unique_position(w, k, i);
            }
            lemma_unique_position(w, k, i);
        },
        None => {
            lemma_place_of(m, k);
            let p = place_of(m, k);
            assert(w[p] == (k, v));
            assert forall|a: int, b: int| 0 <= a < b < w.len() implies crate::text::before(
                (#[trigger] w[a]).0,
                (#[trigger] w[b]).0,
            ) by {
                let x = if a < p {
                    a
                } else {
                    a - 1
                };
                let y = if b < p {
                    b
                } else {
                    b - 1
                };
                if a == p {
                    assert(w[b] == m[b - 1]);
                    if b - 1 > p {
                        crate::text::lemma_before_transitive(k, m[p].0, m[b - 1].0);
                    }
                } else if b == p {
                    assert(w[a] == m[a]);
                    crate::text::lemma_before_total(m[a].0, k);
                } else {
                    assert(w[a] == m[x]);
                    assert(w[b] == m[y]);
                }
            }
            lemma_unique_position(w, k, p);
            if other != k {
                if let Some(j) = member_index(m, other) {
                    let q = if j < p {
                        j
                    } else {
                        j + 1
                    };
                    assert(w[q] == m[j]);
                    lemma_unique_position(w, other, q);
                } else {
                    if let Some(j) = member_index(w, other) {
                        let q = if j < p {
                            j
                        } else {
                            j - 1
                        };
                        assert(j != p);
                        assert(w[j] == m[q]);
                    }
                }
            }
        },
    }
}

proof fn lemma_unique_position(m: Seq<(Seq<char>, JsonView)>, k: Seq<char>, i: int)
    requires
        sorted_keys(m),
        0 <= i < m.len(),
        m[i].0 == k,
    ensures
        member_index(m, k) == Some(i),
{
    lemma_member_index(m, k);
    if let Some(j) = member_index(m, k) {
        if j < i {
            crate::text::lemma_before_total(m[j].0, m[i].0);
        } else if i < j {
            crate::text::lemma_before_total(m[i].0, m[j].0);
        }
    }
}

/// The position of the first member with key `k`.
pub fn find_member(m: &Vec<(String, Json)>, k: &str) -> (r: Option<usize>)
    ensures
        match r {
            Some(i) => member_index(members_view(m@), k@) == Some(i as int) && i < m@.len(),
            None => member_index(members_view(m@), k@) is None,
        },
{
    let ghost v = members_view(m@);
    let mut i: usize = 0;
    while i < m.len()
        invariant
            i <= m@.len(),
            v == members_view(m@),
            forall|j: int| 0 <= j < i ==> (#[trigger] v[j]).0 != k@,
        decreases m@.len() - i,
    {
        assert(v[i as int].0 == m@[i as int].0@);
        if same(m[i].0.as_str(), k) {
            proof {
                lemma_member_index(v, k@);
            }
            return Some(i);
        }
        i = i + 1;
    }
    proof {
        lemma_member_index(v, k@);
    }
    None
}

/// Gives key `k` the value `v`.
pub fn set_member(m: &mut Vec<(String, Json)>, k: String, v: Json)
    ensures
        members_view(final(m)@) == with_member(members_view(old(m)@), k@, v@),
{
    let ghost ov = members_view(m@);
    let ghost kv = k@;
    let ghost vv = v@;
    match find_member(m, k.as_str()) {
        Some(i) => {
            let ghost om = m@;
            m.set(i, (k, v));
            assert(members_view(m@) == ov.update(i as int, (kv, vv)));
        },
        None => {
            let mut p: usize = 0;
            while p < m.len() && !str_before(k.as_str(), m[p].0.as_str())
                invariant
                    p <= m@.len(),
                    m@ == old(m)@,
                    ov == members_view(m@),
                    kv == k@,
                    forall|j: int| 0 <= j < p ==> !crate::text::before(kv, (#[trigger] ov[j]).0),
                decreases m@.len() - p,
            {
                assert(ov[p as int].0 == m@[p as int].0@);
                p = p + 1;
            }
            proof {
                lemma_place_of(ov, kv);
                if p < m@.len() {
                    assert(ov[p as int].0 == m@[p as int].0@);
                }
            }
            m.insert(p, (k, v));
            assert(members_view(m@) == ov.insert(p as int, (kv, vv)));
        },
    }
}

// ---------------------------------------------------------------------------
// Reading
// ---------------------------------------------------------------------------

/// The string, where the value is one.
pub open spec fn string_in(v: Option<JsonView>) -> Option<Seq<char>> {
    match v {
        Some(JsonView::String(s)) => Some(s),
        _ => None,
    }
}

/// The boolean, where the value is one.
pub open spec fn bool_in(v: Option<JsonView>) -> Option<bool> {
    match v {
        Some(JsonView::Bool(b)) => Some(b),
        _ => None,
    }
}

/// The integer, where the value is one that is not negative.
pub open spec fn nat_in(v: Option<JsonView>) -> Option<nat> {
    match v {
        Some(JsonView::Number(NumberView::PosInt(n))) => Some(n),
        _ => None,
    }
}

/// The integer, where the value is one that fits in 64 signed bits.
pub open spec fn int_in(v: Option<JsonView>) -> Option<int> {
    match v {
        Some(JsonView::Number(NumberView::PosInt(n))) => if n <= i64::MAX {
            Some(n as int)
        } else {
            None
        },
        Some(JsonView::Number(NumberView::NegInt(n))) => Some(n),
        _ => None,
    }
}

/// The items, where the value is an array.
pub open spec fn array_in(v: Option<JsonView>) -> Option<Seq<JsonView>> {
    match v {
        Some(JsonView::Array(items)) => Some(items),
        _ => None,
    }
}

impl Json {
    /// The value under key `k`, where this is an object that has it.
    pub fn get(&self, k: &str) -> (r: Option<&Json>)
        ensures
            match r {
                Some(j) => field(self@, k@) == Some(j@),
                None => field(self@, k@) is None,
            },
    {
        match self {
            Json::Object(m) => {
                proof {
                    lemma_object_view(*m);
                }
                match find_member(m, k) {
                    Some(i) => {
                        assert(members_view(m@)[i as int].1 == m@[i as int].1@);
                        Some(&m[i].1)
                    },
                    None => None,
                }
            },
            _ => None,
        }
    }

    /// The string under key `k`.
    pub fn get_str(&self, k: &str) -> (r: Option<&String>)
        ensures
            match r {
                Some(s) => string_in(field(self@, k@)) == Some(s@),
                None => string_in(field(self@, k@)) is None,
            },
    {
        match self.get(k) {
            Some(Json::String(s)) => Some(s),
            _ => None,
        }
    }

    /// The boolean under key `k`.
    pub fn get_bool(&self, k: &str) -> (r: Option<bool>)
        ensures
            r == bool_in(field(self@, k@)),
    {
        match self.get(k) {
            Some(Json::Bool(b)) => Some(*b),
            _ => None,
        }
    }

    /// The integer under key `k`, where it is not negative.
    pub fn get_u64(&self, k: &str) -> (r: Option<u64>)
        ensures
            match r {
                Some(n) => nat_in(field(self@, k@)) == Some(n as nat),
                None => nat_in(field(self@, k@)) is None,
            },
    {
        match self.get(k) {
            Some(Json::Number(JsonNumber::PosInt(n))) => Some(*n),
            _ => None,
        }
    }

    /// The integer under key `k`, where it fits in 64 signed bits.
    pub fn get_i64(&self, k: &str) -> (r: Option<i64>)
        ensures
            match r {
                Some(n) => int_in(field(self@, k@)) == Some(n as int),
                None => int_in(field(self@, k@)) is None,
            },
    {
        match self.get(k) {
            Some(Json::Number(JsonNumber::PosInt(n))) => if *n <= 0x7fff_ffff_ffff_ffff {
                Some(*n as i64)
            } else {
                None
            },
            Some(Json::Number(JsonNumber::NegInt(n))) => Some(*n),
            _ => None,
        }
    }

    /// The items of the array under key `k`.
    pub fn get_array(&self, k: &str) -> (r: Option<&Vec<Json>>)
        ensures
            match r {
                Some(v) => array_in(field(self@, k@)) == Some(items_view(v@)),
                None => array_in(field(self@, k@)) is None,
            },
    {
        match self.get(k) {
            Some(Json::Array(v)) => {
                proof {
                    lemma_array_view(*v);
                }
                Some(v)
            },
            _ => None,
        }
    }
}

// ---------------------------------------------------------------------------
// Building
// ---------------------------------------------------------------------------

/// The members that come of setting each of `pairs` in turn.
pub open spec fn object_of(pairs: Seq<(Seq<char>, JsonView)>) -> Seq<(Seq<char>, JsonView)>
    decreases pairs.len(),
{
    if pairs.len() == 0 {
        Seq::empty()
    } else {
        with_member(object_of(pairs.drop_last()), pairs.last().0, pairs.last().1)
    }
}

/// The object that has each of `pairs`, a later one in place of an earlier one with its key.
pub fn build_object(pairs: Vec<(String, Json)>) -> (r: Json)
    ensures
        r@ == JsonView::Object(object_of(members_view(pairs@))),
{
    let ghost all = members_view(pairs@);
    let mut out: Vec<(String, Json)> = Vec::new();
    let mut i: usize = 0;
    let n = pairs.len();
    assert(members_view(out@) == object_of(all.take(0)));
    while i < n
        invariant
            i <= n,
            n == pairs@.len(),
            all == members_view(pairs@),
            members_view(out@) == object_of(all.take(i as int)),
        decreases n - i,
    {
        let k = pairs[i].0.clone();
        let v = pairs[i].1.clone();
        assert(all.take(i + 1).drop_last() == all.take(i as int));
        assert(all.take(i + 1).last() == (k@, v@));
        set_member(&mut out, k, v);
        i = i + 1;
    }
    assert(all.take(all.len() as int) == all);
    proof {
        lemma_object_view(out);
    }
    Json::Object(out)
}

/// A count as JSON.
pub open spec fn count_json(n: nat) -> JsonView {
    JsonView::Number(NumberView::PosInt(n))
}

/// A member of an object.
pub fn entry(name: &str, v: Json) -> (r: (String, Json))
    ensures
        r.0@ == name@,
        r.1@ == v@,
{
    (String::from_str(name), v)
}

/// A list of texts as JSON.
pub open spec fn texts_json(v: Seq<Seq<char>>) -> JsonView {
    JsonView::Array(v.map_values(|s: Seq<char>| JsonView::String(s)))
}

/// A list of texts as JSON.
pub fn texts_to_json(v: &Vec<String>) -> (r: Json)
    ensures
        r@ == texts_json(views(v@)),
{
    let mut items: Vec<Json> = Vec::new();
    let mut i: usize = 0;
    let n = v.len();
    while i < n
        invariant
            i <= n,
            n == v@.len(),
            items@.len() == i,
            forall|k: int| 0 <= k < i ==> (#[trigger] items@[k])@ == JsonView::String(v@[k]@),
        decreases n - i,
    {
        items.push(Json::String(v[i].clone()));
        i = i + 1;
    }
    proof {
        lemma_array_view(items);
        assert(items_view(items@) =~= views(v@).map_values(|s: Seq<char>| JsonView::String(s)));
    }
    Json::Array(items)
}

/// Pairs of texts as the members of an object.
pub open spec fn pairs_json(h: Seq<(Seq<char>, Seq<char>)>) -> JsonView {
    JsonView::Object(
        object_of(h.map_values(|p: (Seq<char>, Seq<char>)| (p.0, JsonView::String(p.1)))),
    )
}

/// Pairs of texts as the members of an object.
pub fn pairs_to_json(h: &Vec<(String, String)>) -> (r: Json)
    ensures
        r@ == pairs_json(pairs_view(h@)),
{
    let mut pairs: Vec<(String, Json)> = Vec::new();
    let mut i: usize = 0;
    let n = h.len();
    while i < n
        invariant
            i <= n,
            n == h@.len(),
            pairs@.len() == i,
            forall|k: int|
                0 <= k < i ==> (#[trigger] pairs@[k]).0@ == h@[k].0@ && pairs@[k].1@
                    == JsonView::String(h@[k].1@),
        decreases n - i,
    {
        pairs.push((h[i].0.clone(), Json::String(h[i].1.clone())));
        i = i + 1;
    }
    assert(members_view(pairs@) =~= pairs_view(h@).map_values(
        |p: (Seq<char>, Seq<char>)| (p.0, JsonView::String(p.1)),
    ));
    build_object(pairs)
}

/// A value that may be absent: `null` where it is.
pub open spec fn or_null(v: Option<JsonView>) -> JsonView {
    match v {
        Some(v) => v,
        None => JsonView::Null,
    }
}

/// A value that may be absent: `null` where it is.
pub fn json_or_null(v: &Option<Json>) -> (r: Json)
    ensures
        r@ == or_null(optional_view(*v)),
{
    match v {
        Some(v) => v.clone(),
        None => Json::Null,
    }
}

/// A text that may be absent.
pub open spec fn text_json(s: Option<Seq<char>>) -> JsonView {
    match s {
        Some(s) => JsonView::String(s),
        None => JsonView::Null,
    }
}

/// A text that may be absent.
pub fn text_to_json(s: &Option<String>) -> (r: Json)
    ensures
        r@ == text_json(
            match *s {
                Some(s) => Some(s@),
                None => None,
            },
        ),
{
    match s {
        Some(s) => Json::String(s.clone()),
        None => Json::Null,
    }
}

/// A count that may be absent.
pub open spec fn number_json(n: Option<u64>) -> JsonView {
    match n {
        Some(n) => count_json(n as nat),
        None => JsonView::Null,
    }
}

/// A count that may be absent.
pub fn number_to_json(n: Option<u64>) -> (r: Json)
    ensures
        r@ == number_json(n),
{
    match n {
        Some(n) => Json::Number(JsonNumber::PosInt(n)),
        None => Json::Null,
    }
}

/// A list of texts that may be absent.
pub open spec fn list_json(v: Option<Seq<Seq<char>>>) -> JsonView {
    match v {
        Some(v) => texts_json(v),
        None => JsonView::Null,
    }
}

/// A list of texts that may be absent.
pub fn list_to_json(v: &Option<Vec<String>>) -> (r: Json)
    ensures
        r@ == list_json(
            match *v {
                Some(v) => Some(views(v@)),
                None => None,
            },
        ),
{
    match v {
        Some(v) => texts_to_json(v),
        None => Json::Null,
    }
}

/// A member that stands in an object only where it has a value.
pub open spec fn maybe(name: Seq<char>, v: Option<JsonView>) -> Seq<(Seq<char>, JsonView)> {
    match v {
        Some(v) => seq![(name, v)],
        None => Seq::empty(),
    }
}

/// Adds a member.
pub fn add_entry(pairs: &mut Vec<(String, Json)>, name: &str, v: Json)
    ensures
        members_view(final(pairs)@) == members_view(old(pairs)@).push((name@, v@)),
{
    let ghost before = pairs@;
    pairs.push((String::from_str(name), v));
    assert(members_view(pairs@) =~= members_view(before).push((name@, v@)));
}

/// Adds a member, where it has a value.
pub fn add_maybe(pairs: &mut Vec<(String, Json)>, name: &str, v: Option<Json>)
    ensures
        members_view(final(pairs)@) == members_view(old(pairs)@) + maybe(name@, optional_view(v)),
{
    if let Some(v) = v {
        add_entry(pairs, name, v);
        assert(members_view(pairs@) =~= members_view(old(pairs)@) + seq![(name@, v@)]);
    } else {
        assert(members_view(pairs@) =~= members_view(old(pairs)@) + maybe(name@, None));
    }
}

/// The last value that pairs have for a key.
pub open spec fn last_value(pairs: Seq<(Seq<char>, JsonView)>, k: Seq<char>) -> Option<JsonView>
    decreases pairs.len(),
{
    if pairs.len() == 0 {
        None
    } else if pairs.last().0 == k {
        Some(pairs.last().1)
    } else {
        last_value(pairs.drop_last(), k)
    }
}

/// An object made of pairs has its keys in order, and under each key the last value that the
/// pairs have for it.
pub proof fn law_object_of(pairs: Seq<(Seq<char>, JsonView)>, k: Seq<char>)
    ensures
        sorted_keys(object_of(pairs)),
        member(object_of(pairs), k) == last_value(pairs, k),
    decreases pairs.len(),
{
    if pairs.len() > 0 {
        law_object_of(pairs.drop_last(), k);
        law_with_member(
            object_of(pairs.drop_last()),
            pairs.last().0,
            pairs.last().1,
            k,
        );
    }
}

/// In members with their keys in order the last value of a key is the only one.
pub proof fn lemma_last_value(m: Seq<(Seq<char>, JsonView)>, k: Seq<char>)
    requires
        sorted_keys(m),
    ensures
        last_value(m, k) == member(m, k),
    decreases m.len(),
{
    lemma_member_index(m, k);
    if m.len() > 0 {
        let t = m.drop_last();
        assert forall|i: int, j: int| 0 <= i < j < t.len() implies crate::text::before(
            (#[trigger] t[i]).0,
            (#[trigger] t[j]).0,
        ) by {
            assert(crate::text::before(m[i].0, m[j].0));
        }
        lemma_last_value(t, k);
        lemma_member_index(t, k);
        let n = m.len() - 1;
        if m.last().0 == k {
            if let Some(i) = member_index(m, k) {
                if i < n {
                    assert(crate::text::before(m[i].0, m[n].0));
                    crate::text::lemma_before_total(m[i].0, m[n].0);
                }
            } else {
                assert(m[n].0 != k);
            }
        } else {
            match member_index(m, k) {
                Some(i) => {
                    assert(t[i].0 == k);
                    match member_index(t, k) {
                        Some(j) => {
                            assert(m[j].0 == k);
                            if i < j {
                                assert(t[i].0 != k);
                            }
                            if j < i {
                                assert(m[j].0 != k);
                            }
                        },
                        None => {
                            assert(t[i].0 != k);
                        },
                    }
                },
                None => {
                    if let Some(j) = member_index(t, k) {
                        assert(m[j].0 == k);
                    }
                },
            }
        }
    }
}

/// The members of an object, none of anything else.
pub open spec fn members_of(v: JsonView) -> Seq<(Seq<char>, JsonView)> {
    match v {
        JsonView::Object(m) => m,
        _ => Seq::empty(),
    }
}

/// Adds the members of an object; of anything else there are none.
pub fn add_members(pairs: &mut Vec<(String, Json)>, v: &Json)
    ensures
        members_view(final(pairs)@) == members_view(old(pairs)@) + members_of(v@),
{
    let ghost first = members_view(pairs@);
    match v {
        Json::Object(m) => {
            proof {
                lemma_object_view(*m);
            }
            let ghost more = members_view(m@);
            let n = m.len();
            let mut i: usize = 0;
            assert(first + more.take(0) =~= first);
            while i < n
                invariant
                    i <= n,
                    n == m@.len(),
                    more == members_view(m@),
                    members_view(pairs@) == first + more.take(i as int),
                decreases n - i,
            {
                let ghost done = pairs@;
                let e = (m[i].0.clone(), m[i].1.clone());
                pairs.push(e);
                assert(members_view(pairs@) =~= members_view(done).push((e.0@, e.1@)));
                assert(more.take(i + 1) =~= more.take(i as int).push(more[i as int]));
                assert(members_view(pairs@) =~= first + more.take(i + 1));
                i = i + 1;
            }
            assert(more.take(n as int) =~= more);
        },
        _ => {
            assert(first + Seq::<(Seq<char>, JsonView)>::empty() =~= first);
        },
    }
}

/// A whole number as JSON.
pub open spec fn int_json(n: int) -> JsonView {
    if n < 0 {
        JsonView::Number(NumberView::NegInt(n))
    } else {
        JsonView::Number(NumberView::PosInt(n as nat))
    }
}

/// A whole number as JSON.
pub fn int_to_json(n: i64) -> (r: Json)
    ensures
        r@ == int_json(n as int),
{
    if n < 0 {
        Json::Number(JsonNumber::NegInt(n))
    } else {
        Json::Number(JsonNumber::PosInt(n as u64))
    }
}

/// A count as JSON.
pub fn count_to_json(n: u64) -> (r: Json)
    ensures
        r@ == count_json(n as nat),
{
    Json::Number(JsonNumber::PosInt(n))
}

/// A text as JSON.
pub fn str_to_json(s: &str) -> (r: Json)
    ensures
        r@ == JsonView::String(s@),
{
    Json::String(String::from_str(s))
}

/// An object made of pairs has under the key of a pair the value of that pair, where no later
/// pair has the same key, and nothing under a key that no pair has.
pub proof fn law_object_holds(pairs: Seq<(Seq<char>, JsonView)>, i: int, k: Seq<char>)
    ensures
        0 <= i < pairs.len() && pairs[i].0 == k && (forall|j: int|
            i < j < pairs.len() ==> (#[trigger] pairs[j]).0 != k) ==> member(object_of(pairs), k)
            == Some(pairs[i].1),
        (forall|j: int| 0 <= j < pairs.len() ==> (#[trigger] pairs[j]).0 != k) ==> member(
            object_of(pairs),
            k,
        ) is None,
{
    law_object_of(pairs, k);
    lemma_last_of_pairs(pairs, i, k);
}

proof fn lemma_last_of_pairs(pairs: Seq<(Seq<char>, JsonView)>, i: int, k: Seq<char>)
    ensures
        0 <= i < pairs.len() && pairs[i].0 == k && (forall|j: int|
            i < j < pairs.len() ==> (#[trigger] pairs[j]).0 != k) ==> last_value(pairs, k) == Some(
            pairs[i].1,
        ),
        (forall|j: int| 0 <= j < pairs.len() ==> (#[trigger] pairs[j]).0 != k) ==> last_value(
            pairs,
            k,
        ) is None,
    decreases pairs.len(),
{
    if pairs.len() > 0 {
        let d = pairs.drop_last();
        lemma_last_of_pairs(d, i, k);
        assert(pairs[pairs.len() - 1] == pairs.last());
        if 0 <= i < pairs.len() - 1 && (forall|j: int|
            i < j < pairs.len() ==> (#[trigger] pairs[j]).0 != k) {
            assert forall|j: int| i < j < d.len() implies (#[trigger] d[j]).0 != k by {
                assert(d[j] == pairs[j]);
            }
        }
        if forall|j: int| 0 <= j < pairs.len() ==> (#[trigger] pairs[j]).0 != k {
            assert forall|j: int| 0 <= j < d.len() implies (#[trigger] d[j]).0 != k by {
                assert(d[j] == pairs[j]);
            }
        }
    }
}

/// Values that are the same are of one kind, and lists and objects that are the same have as many
/// items, each the same as the other's; texts are the same only where they are equal.
pub proof fn law_same_json(a: JsonView, b: JsonView, i: int)
    requires
        same_json(a, b),
    ensures
        a matches JsonView::String(s) ==> b == JsonView::String(s),
        a matches JsonView::Bool(x) ==> b == JsonView::Bool(x),
        a is Null ==> b is Null,
        a matches JsonView::Number(NumberView::PosInt(n)) ==> b == JsonView::Number(
            NumberView::PosInt(n),
        ),
        a matches JsonView::Number(NumberView::NegInt(n)) ==> b == JsonView::Number(
            NumberView::NegInt(n),
        ),
        a matches JsonView::Array(x) ==> (b matches JsonView::Array(y) && x.len() == y.len() && (0
            <= i < x.len() ==> same_json(x[i], y[i]))),
        a matches JsonView::Object(x) ==> (b matches JsonView::Object(y) && x.len() == y.len() && (
        0 <= i < x.len() ==> x[i].0 == y[i].0 && same_json(x[i].1, y[i].1))),
{
    if let (JsonView::Array(x), JsonView::Array(y)) = (a, b) {
        if 0 <= i < x.len() {
            assert(same_json(x[i], y[i]));
        }
    }
    if let (JsonView::Object(x), JsonView::Object(y)) = (a, b) {
        if 0 <= i < x.len() {
            assert(x[i].0 == y[i].0 && same_json(x[i].1, y[i].1));
        }
    }
}

} // verus!
