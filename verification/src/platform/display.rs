//! Displays.
//!
//! A mirror set counts once: two panels showing the same pixels are one monitor
//! to the user. What slips through the system's own account of mirrors is
//! caught by identical bounds, which nothing but a mirror has.

use crate::vocab::{MonitorId, Rect};
use vstd::prelude::*;

verus! {

/// A display, as the system describes it.
#[derive(Clone, Copy, Debug, PartialEq, Eq, Structural)]
pub struct RawDisplay {
    /// It shows another display's pixels.
    pub mirrors: bool,
    /// The bytes of its UUID, read as one number from the first byte on.
    pub uuid: Option<u128>,
    pub frame: Rect,
    pub is_main: bool,
}

#[derive(Clone, Copy, Debug, PartialEq, Eq, Structural)]
pub struct DisplayInfo {
    pub id: MonitorId,
    pub frame: Rect,
    pub is_main: bool,
}

impl DisplayInfo {
    /// Its bounds, the two zeros taken for one.
    pub open spec fn bounds(self) -> Rect {
        self.frame.plain()
    }
}

/// The list with one display more: as an entry of its own, or as the twin of
/// one with the same bounds, which it then makes main if it is.
pub open spec fn joined(list: Seq<DisplayInfo>, d: DisplayInfo) -> Seq<DisplayInfo>
    decreases list.len(),
{
    if list.len() == 0 {
        seq![d]
    } else if list[0].bounds() == d.bounds() {
        seq![DisplayInfo { is_main: list[0].is_main || d.is_main, ..list[0] }] + list.skip(1)
    } else {
        seq![list[0]] + joined(list.skip(1), d)
    }
}

/// The monitors the displays come to.
pub open spec fn monitors(raw: Seq<RawDisplay>) -> Seq<DisplayInfo>
    decreases raw.len(),
{
    if raw.len() == 0 {
        Seq::empty()
    } else {
        let before = monitors(raw.drop_last());
        let d = raw.last();
        match d.uuid {
            Some(uuid) => if d.mirrors {
                before
            } else {
                joined(
                    before,
                    DisplayInfo { id: MonitorId(uuid), frame: d.frame, is_main: d.is_main },
                )
            },
            None => before,
        }
    }
}

/// The monitors the displays come to, in order. A display that mirrors another
/// or has no UUID is left out.
pub fn active_displays(raw: &Vec<RawDisplay>) -> (r: Vec<DisplayInfo>)
    ensures
        r@ == monitors(raw@),
{
    let mut out: Vec<DisplayInfo> = Vec::new();
    for i in 0..raw.len()
        invariant
            out@ == monitors(raw@.take(i as int)),
    {
        assert(raw@.take(i + 1).drop_last() =~= raw@.take(i as int));
        let d = raw[i];
        if !d.mirrors {
            if let Some(uuid) = d.uuid {
                join(
                    &mut out,
                    DisplayInfo { id: MonitorId(uuid), frame: d.frame, is_main: d.is_main },
                );
            }
        }
    }
    assert(raw@.take(raw@.len() as int) =~= raw@);
    out
}

fn join(list: &mut Vec<DisplayInfo>, d: DisplayInfo)
    ensures
        final(list)@ == joined(old(list)@, d),
{
    let ghost before = list@;
    let mut i: usize = 0;
    assert(before.skip(0) =~= before);
    assert(joined(before, d) =~= before.take(0) + joined(before.skip(0), d));
    while i < list.len()
        invariant
            i <= list.len(),
            list@ == before,
            before == old(list)@,
            joined(before, d) == before.take(i as int) + joined(before.skip(i as int), d),
        decreases list.len() - i,
    {
        let ghost tail = before.skip(i as int);
        assert(tail[0] == before[i as int]);
        assert(tail.skip(1) =~= before.skip(i + 1));
        let twin = list[i];
        if twin.frame.same(d.frame) {
            let merged = DisplayInfo {
                id: twin.id,
                frame: twin.frame,
                is_main: twin.is_main || d.is_main,
            };
            list.set(i, merged);
            assert(list@ =~= before.take(i as int) + (seq![merged] + tail.skip(1)));
            return;
        }
        assert(before.take(i as int) + (seq![tail[0]] + joined(tail.skip(1), d)) =~= before.take(
            i + 1,
        ) + joined(before.skip(i + 1), d));
        i += 1;
    }
    list.push(d);
    assert(list@ =~= before.take(i as int) + joined(before.skip(i as int), d));
}

/// The number sixteen bytes spell, the highest first.
pub open spec fn be_u128(b: Seq<u8>) -> int
    decreases b.len(),
{
    if b.len() == 0 {
        0
    } else {
        be_u128(b.drop_last()) * 256 + b.last()
    }
}

proof fn lemma_be_bound(b: Seq<u8>, n: nat)
    requires
        b.len() == n,
    ensures
        0 <= be_u128(b) < vstd::arithmetic::power::pow(256, n),
    decreases n,
{
    vstd::arithmetic::power::lemma_pow_positive(256, n);
    if n > 0 {
        lemma_be_bound(b.drop_last(), (n - 1) as nat);
        vstd::arithmetic::power::lemma_pow_adds(256, (n - 1) as nat, 1);
        vstd::arithmetic::power::lemma_pow1(256);
        let p = vstd::arithmetic::power::pow(256, (n - 1) as nat);
        assert(vstd::arithmetic::power::pow(256, n) == p * 256);
    } else {
        vstd::arithmetic::power::lemma_pow0(256);
    }
}

/// A display's identity, from the sixteen bytes of its UUID.
pub fn display_uuid(bytes: &[u8; 16]) -> (r: MonitorId)
    ensures
        r.0 == be_u128(bytes@),
{
    let mut n: u128 = 0;
    assert(be_u128(bytes@.take(0)) == 0);
    for i in 0..16
        invariant
            n == be_u128(bytes@.take(i as int)),
    {
        assert(bytes@.take(i + 1).drop_last() =~= bytes@.take(i as int));
        proof {
            lemma_be_bound(bytes@.take(i + 1), (i + 1) as nat);
            vstd::arithmetic::power::lemma_pow_increases(256, (i + 1) as nat, 16);
            assert(vstd::arithmetic::power::pow(256, 16) == 0x1_0000_0000_0000_0000_0000_0000_0000_0000int)
                by {
                reveal_with_fuel(vstd::arithmetic::power::pow, 17);
            }
        }
        n = n * 256 + bytes[i] as u128;
    }
    assert(bytes@.take(16) =~= bytes@);
    MonitorId(n)
}

/// No two monitors share their bounds.
pub proof fn law_no_two_monitors_share_bounds(raw: Seq<RawDisplay>)
    ensures
        forall|i: int, j: int|
            0 <= i < j < monitors(raw).len() ==> monitors(raw)[i].bounds() != monitors(
                raw,
            )[j].bounds(),
    decreases raw.len(),
{
    if raw.len() > 0 {
        law_no_two_monitors_share_bounds(raw.drop_last());
        let d = raw.last();
        if !d.mirrors && d.uuid is Some {
            lemma_joined(
                monitors(raw.drop_last()),
                DisplayInfo { id: MonitorId(d.uuid->Some_0), frame: d.frame, is_main: d.is_main },
            );
        }
    }
}

proof fn lemma_joined(list: Seq<DisplayInfo>, d: DisplayInfo)
    requires
        forall|i: int, j: int| 0 <= i < j < list.len() ==> list[i].bounds() != list[j].bounds(),
    ensures
        forall|i: int, j: int|
            0 <= i < j < joined(list, d).len() ==> joined(list, d)[i].bounds() != joined(
                list,
                d,
            )[j].bounds(),
        forall|i: int|
            0 <= i < joined(list, d).len() ==> (#[trigger] joined(list, d)[i]).bounds() == d.bounds()
                || exists|k: int|
                0 <= k < list.len() && (#[trigger] list[k]).bounds() == joined(list, d)[i].bounds(),
    decreases list.len(),
{
    let out = joined(list, d);
    if list.len() > 0 && list[0].bounds() != d.bounds() {
        let tail = list.skip(1);
        lemma_joined(tail, d);
        let rest = joined(tail, d);
        assert(out =~= seq![list[0]] + rest);
        assert forall|i: int| 0 <= i < out.len() implies (#[trigger] out[i]).bounds() == d.bounds()
            || exists|k: int|
            0 <= k < list.len() && (#[trigger] list[k]).bounds() == out[i].bounds() by {
            if i > 0 {
                assert(out[i] == rest[i - 1]);
                if rest[i - 1].bounds() != d.bounds() {
                    let k = choose|k: int|
                        0 <= k < tail.len() && (#[trigger] tail[k]).bounds() == rest[i - 1].bounds();
                    assert(list[k + 1] == tail[k]);
                }
            } else {
                assert(list[0].bounds() == out[i].bounds());
            }
        }
        assert forall|i: int, j: int| 0 <= i < j < out.len() implies out[i].bounds()
            != out[j].bounds() by {
            assert(out[j] == rest[j - 1]);
            if i == 0 {
                if rest[j - 1].bounds() != d.bounds() {
                    let k = choose|k: int|
                        0 <= k < tail.len() && (#[trigger] tail[k]).bounds() == rest[j - 1].bounds();
                    assert(list[k + 1] == tail[k]);
                }
            } else {
                assert(out[i] == rest[i - 1]);
            }
        }
    } else if list.len() > 0 {
        assert forall|i: int| 0 <= i < out.len() implies (#[trigger] out[i]).bounds() == d.bounds()
            || exists|k: int|
            0 <= k < list.len() && (#[trigger] list[k]).bounds() == out[i].bounds() by {
            assert(list[i].bounds() == out[i].bounds());
        }
    }
}

/// A display joins the first monitor of its bounds, which is main if either was;
/// with bounds of its own it is a monitor of its own, the last.
pub proof fn law_twins_are_one_monitor(list: Seq<DisplayInfo>, d: DisplayInfo, k: int)
    requires
        0 <= k <= list.len(),
        forall|i: int| 0 <= i < k ==> !crate::vocab::same_frame((#[trigger] list[i]).frame, d.frame),
        k < list.len() ==> crate::vocab::same_frame(list[k].frame, d.frame),
    ensures
        k == list.len() ==> joined(list, d) == list.push(d),
        k < list.len() ==> {
            &&& joined(list, d).len() == list.len()
            &&& forall|i: int|
                0 <= i < list.len() && i != k ==> #[trigger] joined(list, d)[i] == list[i]
            &&& joined(list, d)[k].id == list[k].id
            &&& joined(list, d)[k].frame == list[k].frame
            &&& joined(list, d)[k].is_main <==> list[k].is_main || d.is_main
        },
    decreases list.len(),
{
    if list.len() > 0 {
        lemma_same_bounds(list[0].frame, d.frame);
        if k > 0 {
            assert(!crate::vocab::same_frame(list[0].frame, d.frame));
            let tail = list.skip(1);
            assert forall|i: int| 0 <= i < k - 1 implies !crate::vocab::same_frame(
                (#[trigger] tail[i]).frame,
                d.frame,
            ) by {
                assert(tail[i] == list[i + 1]);
            }
            law_twins_are_one_monitor(tail, d, k - 1);
            let rest = joined(tail, d);
            assert(joined(list, d) =~= seq![list[0]] + rest);
            if k == list.len() {
                assert(joined(list, d) =~= list.push(d));
            } else {
                assert forall|i: int| 0 <= i < list.len() && i != k implies #[trigger] joined(
                    list,
                    d,
                )[i] == list[i] by {
                    if i > 0 {
                        assert(rest[i - 1] == tail[i - 1]);
                    }
                }
            }
        }
    } else {
        assert(joined(list, d) =~= list.push(d));
    }
}

/// A display that mirrors another or has no UUID is no monitor; any other joins
/// the monitors there are as itself: by its own UUID and frame, and main if it
/// is.
pub proof fn law_every_display_of_its_own_is_a_monitor(raw: Seq<RawDisplay>, d: RawDisplay)
    ensures
        d.mirrors || d.uuid is None ==> monitors(raw.push(d)) == monitors(raw),
        !d.mirrors && d.uuid is Some && (forall|i: int|
            0 <= i < monitors(raw).len() ==> !crate::vocab::same_frame(
                (#[trigger] monitors(raw)[i]).frame,
                d.frame,
            )) ==> {
            let more = monitors(raw.push(d));
            &&& more.len() == monitors(raw).len() + 1
            &&& more.drop_last() == monitors(raw)
            &&& more.last().id.0 == d.uuid->Some_0
            &&& more.last().frame == d.frame
            &&& more.last().is_main == d.is_main
        },
        !d.mirrors && d.uuid is Some ==> monitors(raw.push(d)) == joined(
            monitors(raw),
            DisplayInfo {
                id: MonitorId(d.uuid->Some_0),
                frame: d.frame,
                is_main: d.is_main,
            },
        ),
{
    assert(raw.push(d).drop_last() =~= raw);
    if !d.mirrors && d.uuid is Some && (forall|i: int|
        0 <= i < monitors(raw).len() ==> !crate::vocab::same_frame(
            (#[trigger] monitors(raw)[i]).frame,
            d.frame,
        )) {
        let info = DisplayInfo {
            id: MonitorId(d.uuid->Some_0),
            frame: d.frame,
            is_main: d.is_main,
        };
        law_twins_are_one_monitor(monitors(raw), info, monitors(raw).len() as int);
        assert(monitors(raw).push(info).drop_last() =~= monitors(raw));
    }
}

/// The first byte of a UUID counts most, and every byte counts in its place.
pub proof fn law_the_first_byte_counts_most(first: u8, rest: Seq<u8>)
    ensures
        be_u128(seq![first] + rest) == first * vstd::arithmetic::power::pow(256, rest.len())
            + be_u128(rest),
    decreases rest.len(),
{
    vstd::arithmetic::power::lemma_pow0(256);
    let all = seq![first] + rest;
    if rest.len() == 0 {
        assert(all.drop_last() =~= Seq::empty());
        assert(be_u128(all.drop_last()) == 0);
        assert(all.last() == first);
        assert(first * 1 == first);
    } else {
        law_the_first_byte_counts_most(first, rest.drop_last());
        assert(all.drop_last() =~= seq![first] + rest.drop_last());
        let n = (rest.len() - 1) as nat;
        vstd::arithmetic::power::lemma_pow_adds(256, n, 1);
        vstd::arithmetic::power::lemma_pow1(256);
        let p = vstd::arithmetic::power::pow(256, n);
        let b = be_u128(rest.drop_last());
        assert((first * p + b) * 256 == first * (p * 256) + b * 256) by (nonlinear_arith);
    }
}

proof fn lemma_same_bounds(a: Rect, b: Rect)
    ensures
        a.plain() == b.plain() <==> crate::vocab::same_frame(a, b),
{
    crate::vocab::law_only_the_zeros_are_one(a.x, b.x);
    crate::vocab::law_only_the_zeros_are_one(a.y, b.y);
    crate::vocab::law_only_the_zeros_are_one(a.w, b.w);
    crate::vocab::law_only_the_zeros_are_one(a.h, b.h);
}

} // verus!
