//! The kill switch's recovery half.
//!
//! Rescue trusts almost nothing, least of all the state in memory, which may be
//! exactly what went wrong. It trusts the log, which says which windows may have
//! been displaced, and a fresh look at the desktop.

use crate::ordered::{ascending, insert_ordered};
use crate::text::owned;
use crate::vocab::WindowId;
use vstd::prelude::*;

verus! {

/// The members of an object that are numbers of 64 bits without a sign; the
/// others are `None`.
pub type Members = Vec<(String, Option<u64>)>;

/// [`Members`] with their names as characters.
pub type MembersView = Seq<(Seq<char>, Option<u64>)>;

/// The members, their names as characters.
pub open spec fn members_view(m: Members) -> MembersView {
    m@.map_values(|e: (String, Option<u64>)| (e.0@, e.1))
}

/// The values of an object: of each that is an object itself, its members.
pub open spec fn values_view(v: Option<Vec<Option<Members>>>) -> Option<Seq<Option<MembersView>>> {
    match v {
        Some(values) => Some(
            values@.map_values(
                |m: Option<Members>|
                    match m {
                        Some(m) => Some(members_view(m)),
                        None => None,
                    },
            ),
        ),
        None => None,
    }
}

/// What `serde_json` reads in a text: if it is an object, its values in the
/// order of their names; of each that is an object, its members.
pub uninterp spec fn object_values(text: Seq<char>) -> Option<Seq<Option<MembersView>>>;

/// Reads a text with `serde_json::from_str`. `None` is a text that it refuses or
/// that is not an object. Objects are told apart with `Value::as_object` and
/// walked in the order of `serde_json::Map`, and members read with
/// `Value::as_u64`. All that is claimed is that the result depends on the text
/// alone.
#[verifier::external_body]
fn parse_object(text: &str) -> (r: Option<Vec<Option<Members>>>)
    ensures
        values_view(r) == object_values(text@),
{
    let v: serde_json::Value = serde_json::from_str(text).ok()?;
    let members = |m: &serde_json::Map<String, serde_json::Value>| -> Members {
        m.iter().map(|(k, x)| (k.clone(), x.as_u64())).collect()
    };
    Some(v.as_object()?.values().map(|x| x.as_object().map(members)).collect())
}

/// The value of the member called `name`.
pub open spec fn member(members: MembersView, name: Seq<char>) -> Option<u64>
    decreases members.len(),
{
    if members.len() == 0 {
        None
    } else if members[0].0 == name {
        members[0].1
    } else {
        member(members.skip(1), name)
    }
}

/// The window an effect names: effects are written as an object of one value,
/// and that value has a member for the window. Numbers too large for a window
/// lose their upper bits.
pub open spec fn named_window(values: Option<Seq<Option<MembersView>>>) -> Option<WindowId> {
    match values {
        Some(values) => if values.len() == 0 {
            None
        } else {
            match values[0] {
                Some(members) => match member(members, "window"@) {
                    Some(id) => Some(WindowId(id as u32)),
                    None => None,
                },
                None => None,
            }
        },
        None => None,
    }
}

/// The window named by an effect that has been read.
pub fn window_in(values: &Option<Vec<Option<Members>>>) -> (r: Option<WindowId>)
    ensures
        r == named_window(values_view(*values)),
{
    let values = match values {
        Some(values) => values,
        None => {
            return None;
        },
    };
    if values.len() == 0 {
        return None;
    }
    let members: &Members = match &values[0] {
        Some(members) => members,
        None => {
            return None;
        },
    };
    assert(values_view(Some(*values))->Some_0[0] == Some(members_view(*members)));
    match get(members, &owned("window")) {
        Some(id) => Some(WindowId(id as u32)),
        None => None,
    }
}

fn get(members: &Members, name: &String) -> (r: Option<u64>)
    ensures
        r == member(members_view(*members), name@),
{
    let ghost all = members_view(*members);
    let mut i: usize = 0;
    assert(all.skip(0) =~= all);
    while i < members.len()
        invariant
            i <= members.len(),
            all == members_view(*members),
            member(all, name@) == member(all.skip(i as int), name@),
        decreases members.len() - i,
    {
        assert(all.skip(i as int)[0] == (members@[i as int].0@, members@[i as int].1));
        assert(all.skip(i as int).skip(1) =~= all.skip(i + 1));
        if members[i].0 == *name {
            return members[i].1;
        }
        i += 1;
    }
    None
}

/// The window named by a logged effect.
pub fn window_id_of(effect_payload: &str) -> (r: Option<WindowId>)
    ensures
        r == named_window(object_values(effect_payload@)),
{
    let values = parse_object(effect_payload);
    window_in(&values)
}

/// One of the logged effects names this window.
pub open spec fn is_touched(payloads: Seq<String>, window: u32) -> bool {
    exists|i: int|
        0 <= i < payloads.len() && named_window(object_values(#[trigger] payloads[i]@)) == Some(
            WindowId(window),
        )
}

/// Every window named by the logged effects that can displace one: each once,
/// in the order of their numbers.
pub fn touched_windows(payloads: &Vec<String>) -> (r: Vec<WindowId>)
    ensures
        ascending(r@.map_values(|w: WindowId| w.0)),
        forall|w: u32| #[trigger] r@.contains(WindowId(w)) <==> is_touched(payloads@, w),
{
    let mut seen: Vec<u32> = Vec::new();
    for i in 0..payloads.len()
        invariant
            ascending(seen@),
            forall|w: u32|
                #![trigger seen@.contains(w)]
                seen@.contains(w) <==> is_touched(payloads@.take(i as int), w),
    {
        let ghost done = payloads@.take(i as int);
        let ghost next = payloads@.take(i + 1);
        let ghost before = seen@;
        let found = window_id_of(payloads[i].as_str());
        if let Some(w) = found {
            insert_ordered(&mut seen, w.0);
        }
        assert forall|w: u32|
            #![trigger seen@.contains(w)]
            seen@.contains(w) <==> is_touched(next, w) by {
            assert(next[i as int] == payloads@[i as int]);
            assert(before.contains(w) <==> is_touched(done, w));
            if is_touched(done, w) {
                let k = choose|k: int|
                    0 <= k < done.len() && named_window(object_values(#[trigger] done[k]@)) == Some(
                        WindowId(w),
                    );
                assert(next[k] == done[k]);
            }
            if is_touched(next, w) {
                let k = choose|k: int|
                    0 <= k < next.len() && named_window(object_values(#[trigger] next[k]@)) == Some(
                        WindowId(w),
                    );
                if k < i {
                    assert(done[k] == next[k]);
                }
            }
        }
    }
    assert(payloads@.take(payloads@.len() as int) =~= payloads@);
    let mut out: Vec<WindowId> = Vec::new();
    for i in 0..seen.len()
        invariant
            out@.len() == i,
            forall|j: int| 0 <= j < i ==> #[trigger] out@[j] == WindowId(seen@[j]),
    {
        out.push(WindowId(seen[i]));
    }
    assert(out@.map_values(|w: WindowId| w.0) =~= seen@);
    assert forall|w: u32| #[trigger] out@.contains(WindowId(w)) <==> seen@.contains(w) by {
        if seen@.contains(w) {
            let k = choose|k: int| 0 <= k < seen@.len() && seen@[k] == w;
            assert(out@[k] == WindowId(w));
        }
        if out@.contains(WindowId(w)) {
            let k = choose|k: int| 0 <= k < out@.len() && out@[k] == WindowId(w);
            assert(seen@[k] == w);
        }
    }
    out
}

/// An effect names the window that the member called `window` of its first
/// value gives, and no other member has a say in it.
pub proof fn law_the_first_value_names_the_window(values: Seq<Option<MembersView>>, k: int)
    requires
        values.len() > 0,
        values[0] is Some,
        0 <= k < values[0]->Some_0.len(),
        values[0]->Some_0[k].0 == "window"@,
        forall|i: int| 0 <= i < k ==> (#[trigger] values[0]->Some_0[i]).0 != "window"@,
    ensures
        named_window(Some(values)) is Some <==> values[0]->Some_0[k].1 is Some,
        values[0]->Some_0[k].1 matches Some(id) ==> named_window(Some(values))->Some_0.0 as u64
            == id % 0x1_0000_0000,
{
    lemma_member_is_the_first(values[0]->Some_0, "window"@, k);
    if let Some(id) = values[0]->Some_0[k].1 {
        assert(id as u32 == id % 0x1_0000_0000) by (bit_vector);
    }
}

proof fn lemma_member_is_the_first(members: MembersView, name: Seq<char>, k: int)
    requires
        0 <= k < members.len(),
        members[k].0 == name,
        forall|i: int| 0 <= i < k ==> (#[trigger] members[i]).0 != name,
    ensures
        member(members, name) == members[k].1,
    decreases k,
{
    if k > 0 {
        assert(members[0].0 != name);
        lemma_member_is_the_first(members.skip(1), name, k - 1);
    }
}

/// Nothing else names a window: not a text that is no object, not an empty one,
/// not one whose first value is no object or has no member called `window`.
pub proof fn law_other_effects_name_no_window(values: Option<Seq<Option<MembersView>>>)
    requires
        values is Some && values->Some_0.len() > 0 && values->Some_0[0] is Some ==> forall|i: int|
            0 <= i < values->Some_0[0]->Some_0.len() ==> (#[trigger] values->Some_0[0]->Some_0[i]).0
                != "window"@,
    ensures
        named_window(values) is None,
{
    if values is Some && values->Some_0.len() > 0 && values->Some_0[0] is Some {
        lemma_no_member(values->Some_0[0]->Some_0, "window"@);
    }
}

proof fn lemma_no_member(members: MembersView, name: Seq<char>)
    requires
        forall|i: int| 0 <= i < members.len() ==> (#[trigger] members[i]).0 != name,
    ensures
        member(members, name) is None,
    decreases members.len(),
{
    if members.len() > 0 {
        assert(members[0].0 != name);
        lemma_no_member(members.skip(1), name);
    }
}

/// A window is touched by a log exactly if it is by one of its parts, and by a
/// single effect exactly if that effect names it.
pub proof fn law_a_log_touches_what_its_effects_name(
    a: Seq<String>,
    b: Seq<String>,
    payload: String,
    window: u32,
)
    ensures
        is_touched(a + b, window) <==> is_touched(a, window) || is_touched(b, window),
        is_touched(seq![payload], window) <==> named_window(object_values(payload@)) == Some(
            WindowId(window),
        ),
        !is_touched(Seq::empty(), window),
{
    if is_touched(a + b, window) {
        let k = choose|i: int|
            0 <= i < (a + b).len() && named_window(object_values(#[trigger] (a + b)[i]@)) == Some(
                WindowId(window),
            );
        if k < a.len() {
            assert(a[k] == (a + b)[k]);
        } else {
            assert(b[k - a.len()] == (a + b)[k]);
        }
    }
    if is_touched(a, window) {
        let k = choose|i: int|
            0 <= i < a.len() && named_window(object_values(#[trigger] a[i]@)) == Some(
                WindowId(window),
            );
        assert((a + b)[k] == a[k]);
    }
    if is_touched(b, window) {
        let k = choose|i: int|
            0 <= i < b.len() && named_window(object_values(#[trigger] b[i]@)) == Some(
                WindowId(window),
            );
        assert((a + b)[a.len() + k] == b[k]);
    }
    assert(seq![payload][0] == payload);
}

/// What was read is seen as it was read: each value in its place, each member under
/// its name.
pub proof fn law_values_are_seen_as_read(values: Vec<Option<Members>>, i: int, k: int)
    requires
        0 <= i < values@.len(),
    ensures
        values_view(Some(values)) is Some,
        values_view(None) is None,
        values_view(Some(values))->Some_0.len() == values@.len(),
        values_view(Some(values))->Some_0[i] is Some <==> values@[i] is Some,
        values@[i] is Some && 0 <= k < values@[i]->Some_0@.len() ==> {
            let seen = values_view(Some(values))->Some_0[i]->Some_0;
            let read = values@[i]->Some_0@;
            seen.len() == read.len() && seen[k].0 == read[k].0@ && seen[k].1 == read[k].1
        },
{
}

} // verus!
