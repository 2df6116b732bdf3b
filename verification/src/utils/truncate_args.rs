//! Cuts long texts in tool arguments before they are shown in an error.
use vstd::prelude::*;

use crate::json::items_view;
use crate::json::lemma_array_view;
use crate::json::lemma_object_view;
use crate::json::members_view;
use crate::json::Json;
use crate::json::JsonView;
use crate::text::chars_of;
use crate::text::cut;
use crate::text::decimal;
use crate::text::push_decimal;
use crate::text::string_of;

verus! {

/// How many characters of a text are kept.
pub const MAX_ERROR_ARG_STRING_LENGTH: usize = 256;

/// A text that is not too long as it is; of any other the first characters, with a note on
/// how many were left out.
pub open spec fn truncated_text(s: Seq<char>) -> Seq<char> {
    if s.len() <= MAX_ERROR_ARG_STRING_LENGTH {
        s
    } else {
        s.take(MAX_ERROR_ARG_STRING_LENGTH as int) + "… [truncated "@ + decimal(
            (s.len() - MAX_ERROR_ARG_STRING_LENGTH) as nat,
        ) + " chars]"@
    }
}

/// The value with every text in it cut, at any depth; keys and everything else stay.
pub open spec fn truncated(v: JsonView) -> JsonView
    decreases v,
{
    match v {
        JsonView::String(s) => JsonView::String(truncated_text(s)),
        JsonView::Array(items) => JsonView::Array(
            Seq::new(
                items.len(),
                |i: int|
                    if 0 <= i < items.len() {
                        truncated(items[i])
                    } else {
                        JsonView::Null
                    },
            ),
        ),
        JsonView::Object(m) => JsonView::Object(
            Seq::new(
                m.len(),
                |i: int|
                    if 0 <= i < m.len() {
                        (m[i].0, truncated(m[i].1))
                    } else {
                        (Seq::empty(), JsonView::Null)
                    },
            ),
        ),
        _ => v,
    }
}

fn truncate_text(s: &str) -> (r: String)
    ensures
        r@ == truncated_text(s@),
{
    let cs = chars_of(s);
    if cs.len() <= MAX_ERROR_ARG_STRING_LENGTH {
        return String::from_str(s);
    }
    let head = cut(&cs, 0, MAX_ERROR_ARG_STRING_LENGTH);
    assert(head@ =~= cs@.take(MAX_ERROR_ARG_STRING_LENGTH as int));
    let mut r = string_of(&head);
    r.append("… [truncated ");
    push_decimal(&mut r, (cs.len() - MAX_ERROR_ARG_STRING_LENGTH) as u64);
    r.append(" chars]");
    r
}

/// A copy of the value with every long text in it cut, for showing it in an error.
pub fn truncate_args_for_error(value: &Json) -> (r: Json)
    ensures
        r@ == truncated(value@),
    decreases value,
{
    match value {
        Json::String(s) => Json::String(truncate_text(s.as_str())),
        Json::Array(items) => {
            proof {
                lemma_array_view(*items);
            }
            let ghost want = truncated(value@)->Array_0;
            let mut out: Vec<Json> = Vec::new();
            let mut i: usize = 0;
            while i < items.len()
                invariant
                    i <= items@.len(),
                    *value == Json::Array(*items),
                    want.len() == items@.len(),
                    forall|k: int|
                        0 <= k < want.len() ==> #[trigger] want[k] == truncated(items@[k]@),
                    items_view(out@) == want.take(i as int),
                decreases items@.len() - i,
            {
                let ghost before = out@;
                assert(decreases_to!(*value => value->Array_0));
                let item = truncate_args_for_error(&items[i]);
                out.push(item);
                assert(items_view(out@) =~= items_view(before).push(item@));
                assert(want.take(i + 1) =~= want.take(i as int).push(want[i as int]));
                i = i + 1;
            }
            proof {
                assert(want.take(want.len() as int) =~= want);
                lemma_array_view(out);
            }
            Json::Array(out)
        },
        Json::Object(members) => {
            proof {
                lemma_object_view(*members);
            }
            let ghost want = truncated(value@)->Object_0;
            let mut out: Vec<(String, Json)> = Vec::new();
            let mut i: usize = 0;
            while i < members.len()
                invariant
                    i <= members@.len(),
                    *value == Json::Object(*members),
                    want.len() == members@.len(),
                    forall|k: int|
                        0 <= k < want.len() ==> #[trigger] want[k] == (
                            members@[k].0@,
                            truncated(members@[k].1@),
                        ),
                    members_view(out@) == want.take(i as int),
                decreases members@.len() - i,
            {
                let ghost before = out@;
                assert(decreases_to!(*value => value->Object_0));
                let k = members[i].0.clone();
                let v = truncate_args_for_error(&members[i].1);
                out.push((k, v));
                assert(members_view(out@) =~= members_view(before).push((k@, v@)));
                assert(want.take(i + 1) =~= want.take(i as int).push(want[i as int]));
                i = i + 1;
            }
            proof {
                assert(want.take(want.len() as int) =~= want);
                lemma_object_view(out);
            }
            Json::Object(out)
        },
        _ => value.clone(),
    }
}

/// No text longer than the limit is left anywhere in the value.
pub open spec fn all_short(v: JsonView) -> bool
    decreases v,
{
    match v {
        JsonView::String(s) => s.len() <= MAX_ERROR_ARG_STRING_LENGTH,
        JsonView::Array(items) => forall|i: int|
            0 <= i < items.len() ==> all_short(#[trigger] items[i]),
        JsonView::Object(m) => forall|i: int| 0 <= i < m.len() ==> all_short((#[trigger] m[i]).1),
        _ => true,
    }
}

/// A value without long texts is left as it is.
pub proof fn law_short_args_unchanged(v: JsonView)
    requires
        all_short(v),
    ensures
        truncated(v) == v,
    decreases v,
{
    match v {
        JsonView::Array(items) => {
            assert forall|i: int| 0 <= i < items.len() implies truncated(items[i]) == items[i] by {
                law_short_args_unchanged(items[i]);
            }
            assert(truncated(v)->Array_0 =~= items);
        },
        JsonView::Object(m) => {
            assert forall|i: int| 0 <= i < m.len() implies truncated(m[i].1) == m[i].1 by {
                law_short_args_unchanged(m[i].1);
            }
            assert(truncated(v)->Object_0 =~= m);
        },
        _ => {},
    }
}

/// A text that is too long is cut behind its first 256 characters, with a note of how many were
/// left out.
pub proof fn law_long_text_is_cut(s: Seq<char>)
    requires
        s.len() > 256,
    ensures
        truncated(JsonView::String(s)) matches JsonView::String(t) && s.take(
            256,
        ).is_prefix_of(t) && t.skip(256) == "… [truncated "@
            + decimal((s.len() - 256) as nat) + " chars]"@,
{
    let head = s.take(MAX_ERROR_ARG_STRING_LENGTH as int);
    let tail = "… [truncated "@ + decimal((s.len() - MAX_ERROR_ARG_STRING_LENGTH) as nat)
        + " chars]"@;
    let t = truncated_text(s);
    assert(t =~= head + tail);
    assert(t.take(head.len() as int) =~= head);
    assert(t.skip(head.len() as int) =~= tail);
}

/// Cutting keeps the shape of a value: every item of a list and every member of an object stays
/// in its place, and is cut by itself; what holds no text stays as it is.
pub proof fn law_truncation_keeps_shape(v: JsonView, i: int)
    ensures
        v matches JsonView::Array(items) ==> (truncated(v) matches JsonView::Array(w) && w.len()
            == items.len() && (0 <= i < items.len() ==> w[i] == truncated(items[i]))),
        v matches JsonView::Object(m) ==> (truncated(v) matches JsonView::Object(w) && w.len()
            == m.len() && (0 <= i < m.len() ==> w[i].0 == m[i].0 && w[i].1 == truncated(m[i].1))),
        v is Null || v is Bool || v is Number ==> truncated(v) == v,
{
}

} // verus!
