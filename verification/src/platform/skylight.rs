//! The native topology: which spaces each display has, and which ordinals they
//! come to.
//!
//! The `i`th entry of a display's list of spaces is its workspace `i`. That
//! mapping stands here and nowhere else. What is read is undocumented and has
//! shifted between releases, so whatever is missing is passed over.

use crate::backend::MonitorWorkspace;
use crate::vocab::{MonitorId, WindowId, WorkspaceId};
use std::collections::HashMap;
use vstd::prelude::*;

verus! {

broadcast use vstd::std_specs::hash::group_hash_axioms;

/// One display's spaces.
#[derive(Debug)]
pub struct DisplaySpaces {
    /// Usually a UUID, sometimes the word "Main" for the primary display.
    pub identifier: String,
    /// The identifier read as a UUID, if it is one.
    pub parsed: Option<MonitorId>,
    pub current_space: u64,
    /// Space numbers in order; the ordinal is the index and one.
    pub spaces: Vec<u64>,
}

/// A space as it is written down: its number under the one name and under the
/// other. `None` where nothing is written down.
pub type RawSpace = Option<(Option<i64>, Option<i64>)>;

/// One display as it is written down.
#[derive(Debug)]
pub struct RawDisplay {
    pub identifier: Option<String>,
    pub parsed: Option<MonitorId>,
    pub current: RawSpace,
    pub spaces: Vec<RawSpace>,
}

/// The first of two numbers that is there, as a space number.
pub open spec fn either(first: Option<i64>, second: Option<i64>) -> Option<u64> {
    match first {
        Some(v) => Some(v as u64),
        None => match second {
            Some(v) => Some(v as u64),
            None => None,
        },
    }
}

/// The space a window is at home on: written down as a number, or as a list of
/// which the first counts.
pub fn home_space(number: Option<i64>, first: Option<i64>) -> (r: Option<u64>)
    ensures
        r == either(number, first),
{
    match number {
        Some(v) => Some(v as u64),
        None => match first {
            Some(v) => Some(v as u64),
            None => None,
        },
    }
}

/// The number of a space as it is written down.
pub open spec fn space_number(space: RawSpace) -> Option<u64> {
    match space {
        Some((managed, id64)) => either(managed, id64),
        None => None,
    }
}

/// The number of a space as it is written down.
pub fn space_id(space: RawSpace) -> (r: Option<u64>)
    ensures
        r == space_number(space),
{
    match space {
        Some((managed, id64)) => home_space(managed, id64),
        None => None,
    }
}

/// The numbers of the spaces that have one.
pub open spec fn space_numbers(spaces: Seq<RawSpace>) -> Seq<u64>
    decreases spaces.len(),
{
    if spaces.len() == 0 {
        Seq::empty()
    } else {
        match space_number(spaces.last()) {
            Some(id) => space_numbers(spaces.drop_last()).push(id),
            None => space_numbers(spaces.drop_last()),
        }
    }
}

/// What is read of a display as it is written down.
pub open spec fn reads_as(raw: RawDisplay, d: DisplaySpaces) -> bool {
    &&& d.identifier@ == (match raw.identifier {
        Some(name) => name@,
        None => Seq::empty(),
    })
    &&& d.parsed == raw.parsed
    &&& d.current_space == (match space_number(raw.current) {
        Some(id) => id,
        None => 0,
    })
    &&& d.spaces@ == space_numbers(raw.spaces@)
}

/// Read the displays and their spaces.
pub fn managed_display_spaces(raw: Vec<RawDisplay>) -> (r: Vec<DisplaySpaces>)
    ensures
        r@.len() == raw@.len(),
        forall|i: int| 0 <= i < raw@.len() ==> reads_as(#[trigger] raw@[i], r@[i]),
{
    let ghost all = raw@;
    let mut out: Vec<DisplaySpaces> = Vec::new();
    for display in it: raw
        invariant
            it.seq() == all,
            out@.len() == it.index(),
            forall|i: int| 0 <= i < out@.len() ==> reads_as(#[trigger] all[i], out@[i]),
    {
        let ghost given = display;
        let RawDisplay { identifier, parsed, current, spaces: raw_spaces } = display;
        let identifier = match identifier {
            Some(name) => name,
            None => String::new(),
        };
        let current_space: u64 = match space_id(current) {
            Some(id) => id,
            None => 0,
        };
        let mut spaces: Vec<u64> = Vec::new();
        for j in 0..raw_spaces.len()
            invariant
                spaces@ == space_numbers(raw_spaces@.take(j as int)),
        {
            assert(raw_spaces@.take(j + 1).drop_last() =~= raw_spaces@.take(j as int));
            if let Some(id) = space_id(raw_spaces[j]) {
                spaces.push(id);
            }
        }
        assert(raw_spaces@.take(raw_spaces@.len() as int) =~= raw_spaces@);
        out.push(DisplaySpaces { identifier, parsed, current_space, spaces });
    }
    out
}

// --- which display ---------------------------------------------------------------

/// The word "main", in whatever case.
pub open spec fn says_main(s: Seq<char>) -> bool {
    &&& s.len() == 4
    &&& s[0] == 'm' || s[0] == 'M'
    &&& s[1] == 'a' || s[1] == 'A'
    &&& s[2] == 'i' || s[2] == 'I'
    &&& s[3] == 'n' || s[3] == 'N'
}

fn is_main_word(s: &str) -> (r: bool)
    ensures
        r == says_main(s@),
{
    if s.unicode_len() != 4 {
        return false;
    }
    let (a, b, c, d) = (s.get_char(0), s.get_char(1), s.get_char(2), s.get_char(3));
    (a == 'm' || a == 'M') && (b == 'a' || b == 'A') && (c == 'i' || c == 'I') && (d == 'n' || d
        == 'N')
}

/// The first display marked as the main one.
pub open spec fn main_of(known: Seq<(MonitorId, bool)>) -> Option<MonitorId>
    decreases known.len(),
{
    if known.len() == 0 {
        None
    } else if known[0].1 {
        Some(known[0].0)
    } else {
        main_of(known.skip(1))
    }
}

/// Where a display stands among those known.
pub open spec fn place_of(known: Seq<(MonitorId, bool)>, id: MonitorId) -> Option<int>
    decreases known.len(),
{
    if known.len() == 0 {
        None
    } else if known.last().0 == id && place_of(known.drop_last(), id) is None {
        Some(known.len() - 1)
    } else {
        place_of(known.drop_last(), id)
    }
}

/// The display an identifier means. One that says nothing can only mean the
/// single display there is.
pub open spec fn resolved(
    identifier: Seq<char>,
    parsed: Option<MonitorId>,
    known: Seq<(MonitorId, bool)>,
) -> Option<MonitorId> {
    if says_main(identifier) {
        main_of(known)
    } else if parsed is Some && place_of(known, parsed->Some_0) is Some {
        parsed
    } else if known.len() == 1 {
        Some(known[0].0)
    } else {
        None
    }
}

fn main_display(known: &Vec<(MonitorId, bool)>) -> (r: Option<MonitorId>)
    ensures
        r == main_of(known@),
{
    let mut i: usize = 0;
    assert(known@.skip(0) =~= known@);
    while i < known.len()
        invariant
            i <= known.len(),
            main_of(known@) == main_of(known@.skip(i as int)),
        decreases known.len() - i,
    {
        assert(known@.skip(i as int).skip(1) =~= known@.skip(i + 1));
        if known[i].1 {
            return Some(known[i].0);
        }
        i += 1;
    }
    None
}

/// Where a display stands among those known.
pub fn find_display(known: &Vec<(MonitorId, bool)>, id: MonitorId) -> (r: Option<usize>)
    ensures
        r is Some <==> place_of(known@, id) is Some,
        r matches Some(i) ==> Some(i as int) == place_of(known@, id),
{
    for i in 0..known.len()
        invariant
            place_of(known@.take(i as int), id) is None,
    {
        assert(known@.take(i + 1).drop_last() =~= known@.take(i as int));
        if known[i].0.0 == id.0 {
            proof {
                lemma_place_stays(known@, id, i + 1);
            }
            return Some(i);
        }
    }
    assert(known@.take(known@.len() as int) =~= known@);
    None
}

proof fn lemma_place_stays(known: Seq<(MonitorId, bool)>, id: MonitorId, n: int)
    requires
        0 <= n <= known.len(),
        place_of(known.take(n), id) is Some,
    ensures
        place_of(known, id) == place_of(known.take(n), id),
    decreases known.len(),
{
    if n == known.len() {
        assert(known.take(n) =~= known);
    } else {
        assert(known.drop_last().take(n) =~= known.take(n));
        lemma_place_stays(known.drop_last(), id, n);
    }
}

proof fn lemma_place(known: Seq<(MonitorId, bool)>, id: MonitorId)
    ensures
        place_of(known, id) matches Some(i) ==> 0 <= i < known.len() && known[i].0 == id,
        place_of(known, id) is None ==> forall|i: int| 0 <= i < known.len() ==> known[i].0 != id,
    decreases known.len(),
{
    if known.len() > 0 {
        let init = known.drop_last();
        lemma_place(init, id);
        if place_of(known, id) is None {
            assert forall|i: int| 0 <= i < known.len() implies known[i].0 != id by {
                if i < init.len() {
                    assert(init[i] == known[i]);
                }
            }
        }
    }
}

proof fn lemma_main(known: Seq<(MonitorId, bool)>)
    ensures
        main_of(known) matches Some(id) ==> exists|i: int|
            0 <= i < known.len() && (#[trigger] known[i]).0 == id && known[i].1,
    decreases known.len(),
{
    if known.len() > 0 && !known[0].1 {
        lemma_main(known.skip(1));
        if main_of(known) is Some {
            let i = choose|i: int|
                0 <= i < known.skip(1).len() && (#[trigger] known.skip(1)[i]).0 == main_of(
                    known,
                )->Some_0 && known.skip(1)[i].1;
            assert(known[i + 1] == known.skip(1)[i]);
        }
    }
}

/// Whatever an identifier says, it only ever means a display that is there.
pub proof fn law_resolved_display_is_known(
    identifier: Seq<char>,
    parsed: Option<MonitorId>,
    known: Seq<(MonitorId, bool)>,
)
    requires
        resolved(identifier, parsed, known) is Some,
    ensures
        place_of(known, resolved(identifier, parsed, known)->Some_0) is Some,
{
    let id = resolved(identifier, parsed, known)->Some_0;
    lemma_main(known);
    lemma_place(known, id);
}

/// The display an identifier means.
pub fn resolve_monitor_id(
    identifier: &str,
    parsed: Option<MonitorId>,
    known: &Vec<(MonitorId, bool)>,
) -> (r: Option<MonitorId>)
    ensures
        r == resolved(identifier@, parsed, known@),
{
    if is_main_word(identifier) {
        return main_display(known);
    }
    if let Some(id) = parsed {
        if find_display(known, id).is_some() {
            return Some(id);
        }
    }
    if known.len() == 1 {
        return Some(known[0].0);
    }
    None
}

// --- ordinals ----------------------------------------------------------------------

/// The ordinal of the space at `index`. Ordinals are bytes, and never 0.
pub open spec fn ordinal_at(index: int) -> u8 {
    let low = index % 256;
    if low == 255 {
        255
    } else {
        (low + 1) as u8
    }
}

/// The workspaces of the first `n` spaces, over those already known.
pub open spec fn with_spaces(
    known: Map<u64, WorkspaceId>,
    spaces: Seq<u64>,
    n: int,
) -> Map<u64, WorkspaceId>
    decreases n,
{
    if n <= 0 {
        known
    } else {
        with_spaces(known, spaces, n - 1).insert(spaces[n - 1], WorkspaceId(ordinal_at(n - 1)))
    }
}

/// The workspace shown, by the first `n` spaces: the first where none of them
/// is the current one.
pub open spec fn active_among(spaces: Seq<u64>, current: u64, n: int) -> WorkspaceId
    decreases n,
{
    if n <= 0 {
        WorkspaceId(1)
    } else if spaces[n - 1] == current {
        WorkspaceId(ordinal_at(n - 1))
    } else {
        active_among(spaces, current, n - 1)
    }
}

/// How many workspaces a display offers: at least one, and no more than a byte
/// counts.
pub open spec fn offered(spaces: nat) -> u8 {
    if spaces == 0 {
        1
    } else if spaces > 255 {
        255
    } else {
        spaces as u8
    }
}

/// The list with an entry for its monitor, in place of the one it had.
pub open spec fn upserted(list: Seq<MonitorWorkspace>, entry: MonitorWorkspace) -> Seq<
    MonitorWorkspace,
>
    decreases list.len(),
{
    if list.len() == 0 {
        seq![entry]
    } else if list[0].monitor == entry.monitor {
        seq![entry] + list.skip(1)
    } else {
        seq![list[0]] + upserted(list.skip(1), entry)
    }
}

/// What the displays' spaces come to.
#[verifier::ext_equal]
pub struct TopologyView {
    pub per_monitor: Seq<MonitorWorkspace>,
    pub space_to_ordinal: Map<u64, WorkspaceId>,
}

/// What the displays' spaces come to. A display that cannot be told is passed
/// over.
pub open spec fn folded(displays: Seq<DisplaySpaces>, known: Seq<(MonitorId, bool)>) -> TopologyView
    decreases displays.len(),
{
    if displays.len() == 0 {
        TopologyView { per_monitor: Seq::empty(), space_to_ordinal: Map::empty() }
    } else {
        let before = folded(displays.drop_last(), known);
        let d = displays.last();
        match resolved(d.identifier@, d.parsed, known) {
            None => before,
            Some(monitor) => TopologyView {
                per_monitor: upserted(
                    before.per_monitor,
                    MonitorWorkspace {
                        monitor,
                        active: active_among(d.spaces@, d.current_space, d.spaces@.len() as int),
                        count: offered(d.spaces@.len()),
                    },
                ),
                space_to_ordinal: with_spaces(
                    before.space_to_ordinal,
                    d.spaces@,
                    d.spaces@.len() as int,
                ),
            },
        }
    }
}

/// What the displays' spaces come to.
#[derive(Debug)]
pub struct Topology {
    /// Each monitor once.
    pub per_monitor: Vec<MonitorWorkspace>,
    /// The workspace each space is.
    pub space_to_ordinal: HashMap<u64, WorkspaceId>,
}

impl View for Topology {
    type V = TopologyView;

    open spec fn view(&self) -> TopologyView {
        TopologyView {
            per_monitor: self.per_monitor@,
            space_to_ordinal: self.space_to_ordinal@,
        }
    }
}

fn upsert(list: &mut Vec<MonitorWorkspace>, entry: MonitorWorkspace)
    ensures
        final(list)@ == upserted(old(list)@, entry),
{
    let ghost before = list@;
    let mut i: usize = 0;
    assert(before.skip(0) =~= before);
    assert(upserted(before, entry) =~= before.take(0) + upserted(before.skip(0), entry));
    while i < list.len()
        invariant
            i <= list.len(),
            list@ == before,
            before == old(list)@,
            upserted(before, entry) == before.take(i as int) + upserted(
                before.skip(i as int),
                entry,
            ),
        decreases list.len() - i,
    {
        let ghost tail = before.skip(i as int);
        assert(tail[0] == before[i as int]);
        assert(tail.skip(1) =~= before.skip(i + 1));
        if list[i].monitor.0 == entry.monitor.0 {
            list.set(i, entry);
            assert(list@ =~= before.take(i as int) + (seq![entry] + tail.skip(1)));
            return;
        }
        assert(before.take(i as int) + (seq![tail[0]] + upserted(tail.skip(1), entry))
            =~= before.take(i + 1) + upserted(before.skip(i + 1), entry));
        i += 1;
    }
    list.push(entry);
    assert(list@ =~= before.take(i as int) + upserted(before.skip(i as int), entry));
}

/// Fold what was read into what the core needs: per display the workspace shown
/// and how many there are, and for every space the workspace it is.
pub fn fold_topology(displays: &Vec<DisplaySpaces>, known: &Vec<(MonitorId, bool)>) -> (r: Topology)
    ensures
        r@ == folded(displays@, known@),
{
    let mut per_monitor: Vec<MonitorWorkspace> = Vec::new();
    let mut space_to_ordinal: HashMap<u64, WorkspaceId> = HashMap::new();
    for i in 0..displays.len()
        invariant
            per_monitor@ == folded(displays@.take(i as int), known@).per_monitor,
            space_to_ordinal@ == folded(displays@.take(i as int), known@).space_to_ordinal,
    {
        assert(displays@.take(i + 1).drop_last() =~= displays@.take(i as int));
        let d = &displays[i];
        if let Some(monitor) = resolve_monitor_id(d.identifier.as_str(), d.parsed, known) {
            let ghost before = space_to_ordinal@;
            let mut active = WorkspaceId(1);
            for j in 0..d.spaces.len()
                invariant
                    space_to_ordinal@ == with_spaces(before, d.spaces@, j as int),
                    active == active_among(d.spaces@, d.current_space, j as int),
            {
                let low: u8 = (j % 256) as u8;
                let ordinal = WorkspaceId(low.saturating_add(1));
                assert(ordinal.0 == ordinal_at(j as int));
                space_to_ordinal.insert(d.spaces[j], ordinal);
                if d.spaces[j] == d.current_space {
                    active = ordinal;
                }
            }
            let count: u8 = if d.spaces.len() == 0 {
                1
            } else if d.spaces.len() > 255 {
                255
            } else {
                d.spaces.len() as u8
            };
            upsert(&mut per_monitor, MonitorWorkspace { monitor, active, count });
        }
    }
    assert(displays@.take(displays@.len() as int) =~= displays@);
    Topology { per_monitor, space_to_ordinal }
}

/// The workspaces of the first `n` windows whose space is known.
pub open spec fn placed(
    windows: Seq<WindowId>,
    homes: Seq<Option<u64>>,
    ordinals: Map<u64, WorkspaceId>,
    n: int,
) -> Map<u32, WorkspaceId>
    decreases n,
{
    if n <= 0 {
        Map::empty()
    } else {
        let before = placed(windows, homes, ordinals, n - 1);
        match homes[n - 1] {
            Some(space) => if ordinals.contains_key(space) {
                before.insert(windows[n - 1].0, ordinals[space])
            } else {
                before
            },
            None => before,
        }
    }
}

/// The workspace each window is on, by the window's number. `homes` are the
/// spaces the windows are at home on, in the same order; a window whose space
/// says nothing is left out, which leaves what is believed of it be.
pub fn window_workspaces(
    windows: &Vec<WindowId>,
    homes: &Vec<Option<u64>>,
    space_to_ordinal: &HashMap<u64, WorkspaceId>,
) -> (r: HashMap<u32, WorkspaceId>)
    ensures
        r@ == placed(
            windows@,
            homes@,
            space_to_ordinal@,
            (if homes@.len() <= windows@.len() {
                homes@.len() as int
            } else {
                windows@.len() as int
            }),
        ),
{
    let mut out: HashMap<u32, WorkspaceId> = HashMap::new();
    let n: usize = if homes.len() <= windows.len() {
        homes.len()
    } else {
        windows.len()
    };
    for i in 0..n
        invariant
            n <= homes.len(),
            n <= windows.len(),
            out@ == placed(windows@, homes@, space_to_ordinal@, i as int),
    {
        if let Some(space) = homes[i] {
            if let Some(ordinal) = space_to_ordinal.get(&space) {
                out.insert(windows[i].0, *ordinal);
            }
        }
    }
    out
}

/// An ordinal is never 0, and below 256 spaces the ordinals count them off.
pub proof fn law_ordinals_count_the_spaces(index: int)
    requires
        0 <= index,
    ensures
        ordinal_at(index) >= 1,
        index < 255 ==> ordinal_at(index) == index + 1,
{
}

/// The workspace a display is said to show is the one its current space is, as
/// long as no space is listed twice and they can all be counted.
pub proof fn law_active_is_the_current_space(spaces: Seq<u64>, current: u64, k: int)
    requires
        0 <= k < spaces.len() <= 255,
        spaces[k] == current,
        forall|i: int, j: int| 0 <= i < j < spaces.len() ==> spaces[i] != spaces[j],
    ensures
        active_among(spaces, current, spaces.len() as int) == WorkspaceId((k + 1) as u8),
        with_spaces(Map::empty(), spaces, spaces.len() as int)[current] == WorkspaceId(
            (k + 1) as u8,
        ),
{
    lemma_active(spaces, current, k, spaces.len() as int);
}

proof fn lemma_active(spaces: Seq<u64>, current: u64, k: int, n: int)
    requires
        0 <= k < n <= spaces.len() <= 255,
        spaces[k] == current,
        forall|i: int, j: int| 0 <= i < j < spaces.len() ==> spaces[i] != spaces[j],
    ensures
        active_among(spaces, current, n) == WorkspaceId((k + 1) as u8),
        with_spaces(Map::empty(), spaces, n)[current] == WorkspaceId((k + 1) as u8),
    decreases n,
{
    if n - 1 != k {
        lemma_active(spaces, current, k, n - 1);
    }
}

/// A display stands where its number is first found, and nowhere if it is not.
pub proof fn law_a_display_stands_where_its_number_is(
    known: Seq<(MonitorId, bool)>,
    id: MonitorId,
)
    ensures
        place_of(known, id) matches Some(i) ==> 0 <= i < known.len() && known[i].0 == id && forall|
            j: int,
        |
            0 <= j < i ==> (#[trigger] known[j]).0 != id,
        place_of(known, id) is None ==> forall|j: int|
            0 <= j < known.len() ==> (#[trigger] known[j]).0 != id,
    decreases known.len(),
{
    if known.len() > 0 {
        let init = known.drop_last();
        law_a_display_stands_where_its_number_is(init, id);
        assert forall|j: int| 0 <= j < init.len() implies init[j] == known[j] by {}
        if place_of(known, id) is None {
            assert forall|j: int| 0 <= j < known.len() implies (#[trigger] known[j]).0 != id by {
                if j < init.len() {
                    assert(init[j] == known[j]);
                }
            }
        }
        if let Some(i) = place_of(known, id) {
            assert forall|j: int| 0 <= j < i implies (#[trigger] known[j]).0 != id by {
                assert(init[j] == known[j]);
            }
        }
    }
}

proof fn lemma_main_is_first(known: Seq<(MonitorId, bool)>)
    ensures
        main_of(known) is None <==> forall|i: int|
            0 <= i < known.len() ==> !(#[trigger] known[i]).1,
        main_of(known) matches Some(id) ==> exists|i: int|
            0 <= i < known.len() && (#[trigger] known[i]) == (id, true) && forall|j: int|
                0 <= j < i ==> !(#[trigger] known[j]).1,
    decreases known.len(),
{
    if known.len() > 0 {
        let rest = known.skip(1);
        lemma_main_is_first(rest);
        if known[0].1 {
            assert(known[0] == (known[0].0, true));
        } else {
            if main_of(rest) is None {
                assert forall|i: int| 0 <= i < known.len() implies !(#[trigger] known[i]).1 by {
                    if i > 0 {
                        assert(rest[i - 1] == known[i]);
                    }
                }
            }
            if let Some(id) = main_of(rest) {
                let i = choose|i: int|
                    0 <= i < rest.len() && (#[trigger] rest[i]) == (id, true) && forall|j: int|
                        0 <= j < i ==> !(#[trigger] rest[j]).1;
                assert(known[i + 1] == (id, true));
                assert forall|j: int| 0 <= j < i + 1 implies !(#[trigger] known[j]).1 by {
                    if j > 0 {
                        assert(rest[j - 1] == known[j]);
                    }
                }
            }
        }
    }
}

/// An identifier means the display it says: "Main" the first one that is marked as
/// such, a number the display of that number where there is one, and anything else
/// only ever the single display there is.
pub proof fn law_identifiers_mean_the_display_they_say(
    identifier: Seq<char>,
    parsed: Option<MonitorId>,
    known: Seq<(MonitorId, bool)>,
    k: int,
)
    ensures
        identifier == "Main"@ || identifier == "main"@ || identifier == "MAIN"@ ==> (resolved(
            identifier,
            parsed,
            known,
        ) matches Some(id) ==> exists|i: int|
            0 <= i < known.len() && (#[trigger] known[i]) == (id, true) && forall|j: int|
                0 <= j < i ==> !(#[trigger] known[j]).1),
        (identifier == "Main"@ || identifier == "main"@) && 0 <= k < known.len() && known[k].1
            ==> resolved(identifier, parsed, known) is Some,
        identifier.len() != 4 && 0 <= k < known.len() && parsed == Some(known[k].0) ==> resolved(
            identifier,
            parsed,
            known,
        ) == parsed,
        identifier.len() != 4 && known.len() == 1 ==> resolved(identifier, parsed, known) == Some(
            known[0].0,
        ),
        identifier.len() != 4 && known.len() != 1 && (parsed is None || forall|i: int|
            0 <= i < known.len() ==> (#[trigger] known[i]).0 != parsed->Some_0) ==> resolved(
            identifier,
            parsed,
            known,
        ) is None,
{
    reveal_strlit("Main");
    reveal_strlit("main");
    reveal_strlit("MAIN");
    lemma_main_is_first(known);
    if parsed is Some {
        law_a_display_stands_where_its_number_is(known, parsed->Some_0);
    }
}

/// The spaces of a display are those that have a number, in their order: reading
/// two parts of the list gives what both give, and a space without a number gives
/// nothing.
pub proof fn law_spaces_are_read_in_order(a: Seq<RawSpace>, b: Seq<RawSpace>, space: RawSpace)
    ensures
        space_numbers(a + b) == space_numbers(a) + space_numbers(b),
        space_number(space) is None ==> space_numbers(a.push(space)) == space_numbers(a),
        space_number(space) matches Some(id) ==> space_numbers(a.push(space)) == space_numbers(
            a,
        ).push(id),
    decreases b.len(),
{
    assert(a.push(space).drop_last() =~= a);
    if b.len() == 0 {
        assert(a + b =~= a);
        assert(space_numbers(a) + space_numbers(b) =~= space_numbers(a));
    } else {
        assert((a + b).drop_last() =~= a + b.drop_last());
        law_spaces_are_read_in_order(a, b.drop_last(), space);
        assert(space_numbers(a + b) =~= space_numbers(a) + space_numbers(b));
    }
}

/// A space goes by the number that manages it, and where that is not written down
/// by its other one; without either it goes by none.
pub proof fn law_a_space_goes_by_the_number_it_has(managed: i64, id64: i64)
    requires
        managed >= 0,
        id64 >= 0,
    ensures
        space_number(Some((Some(managed), Some(id64)))) == Some(managed as u64),
        space_number(Some((Some(managed), None))) == Some(managed as u64),
        space_number(Some((None, Some(id64)))) == Some(id64 as u64),
        space_number(Some((None, None))) is None,
        space_number(None) is None,
{
}

proof fn lemma_with_spaces(known: Map<u64, WorkspaceId>, spaces: Seq<u64>, n: int)
    requires
        0 <= n <= spaces.len(),
    ensures
        forall|s: u64|
            (forall|j: int| 0 <= j < n ==> spaces[j] != s) ==> (#[trigger] with_spaces(
                known,
                spaces,
                n,
            ).contains_key(s) <==> known.contains_key(s)) && with_spaces(known, spaces, n)[s]
                == known[s],
        forall|k: int|
            0 <= k < n && (forall|j: int| k < j < n ==> spaces[j] != spaces[k]) ==> with_spaces(
                known,
                spaces,
                n,
            ).contains_key(#[trigger] spaces[k]) && with_spaces(known, spaces, n)[spaces[k]]
                == WorkspaceId(ordinal_at(k)),
    decreases n,
{
    if n > 0 {
        lemma_with_spaces(known, spaces, n - 1);
        let before = with_spaces(known, spaces, n - 1);
        assert forall|k: int|
            0 <= k < n && (forall|j: int| k < j < n ==> spaces[j] != spaces[k]) implies with_spaces(
            known,
            spaces,
            n,
        ).contains_key(#[trigger] spaces[k]) && with_spaces(known, spaces, n)[spaces[k]]
            == WorkspaceId(ordinal_at(k)) by {
            if k < n - 1 {
                assert(spaces[n - 1] != spaces[k]);
                assert(before.contains_key(spaces[k]));
            }
        }
        assert forall|s: u64| (forall|j: int| 0 <= j < n ==> spaces[j] != s) implies (
        #[trigger] with_spaces(known, spaces, n).contains_key(s) <==> known.contains_key(s))
            && with_spaces(known, spaces, n)[s] == known[s] by {
            assert(spaces[n - 1] != s);
            assert(before.contains_key(s) <==> known.contains_key(s));
        }
    }
}

/// Every space of a display that can be told is the workspace of its place in the
/// display's list, counted from 1, as long as no space is listed twice anywhere.
pub proof fn law_every_space_is_the_workspace_of_its_place(
    displays: Seq<DisplaySpaces>,
    known: Seq<(MonitorId, bool)>,
    i: int,
    k: int,
)
    requires
        0 <= i < displays.len(),
        0 <= k < displays[i].spaces@.len(),
        k < 255,
        resolved(displays[i].identifier@, displays[i].parsed, known) is Some,
        forall|a: int, x: int, b: int, y: int|
            0 <= a < displays.len() && 0 <= b < displays.len() && 0 <= x
                < displays[a].spaces@.len() && 0 <= y < displays[b].spaces@.len() && (a != b || x
                != y) ==> #[trigger] displays[a].spaces@[x] != #[trigger] displays[b].spaces@[y],
    ensures
        folded(displays, known).space_to_ordinal.contains_key(displays[i].spaces@[k]),
        folded(displays, known).space_to_ordinal[displays[i].spaces@[k]].0 == k + 1,
    decreases displays.len(),
{
    let n = displays.len() - 1;
    let init = displays.drop_last();
    let d = displays[n];
    let s = displays[i].spaces@[k];
    let before = folded(init, known).space_to_ordinal;
    lemma_with_spaces(before, d.spaces@, d.spaces@.len() as int);
    if i < n {
        assert(init[i] == displays[i]);
        assert forall|a: int, x: int, b: int, y: int|
            0 <= a < init.len() && 0 <= b < init.len() && 0 <= x < init[a].spaces@.len() && 0 <= y
                < init[b].spaces@.len() && (a != b || x != y) implies #[trigger] init[a].spaces@[x]
            != #[trigger] init[b].spaces@[y] by {
            assert(displays[a].spaces@[x] != displays[b].spaces@[y]);
        }
        law_every_space_is_the_workspace_of_its_place(init, known, i, k);
        assert forall|j: int| 0 <= j < d.spaces@.len() implies d.spaces@[j] != s by {
            assert(displays[n].spaces@[j] != displays[i].spaces@[k]);
        }
        assert(with_spaces(before, d.spaces@, d.spaces@.len() as int).contains_key(s));
    } else {
        assert forall|j: int| k < j < d.spaces@.len() implies d.spaces@[j] != d.spaces@[k] by {
            assert(displays[n].spaces@[j] != displays[n].spaces@[k]);
        }
        assert(d.spaces@[k] == s);
    }
}

proof fn lemma_upserted(list: Seq<MonitorWorkspace>, entry: MonitorWorkspace)
    ensures
        upserted(list, entry).contains(entry),
        forall|m: MonitorWorkspace|
            m.monitor != entry.monitor ==> (#[trigger] upserted(list, entry).contains(m)
                <==> list.contains(m)),
        (forall|i: int| 0 <= i < list.len() ==> (#[trigger] list[i]).monitor != entry.monitor)
            ==> forall|m: MonitorWorkspace|
            m.monitor == entry.monitor && #[trigger] upserted(list, entry).contains(m) ==> m
                == entry,
    decreases list.len(),
{
    let out = upserted(list, entry);
    if list.len() == 0 {
        assert(out[0] == entry);
    } else if list[0].monitor == entry.monitor {
        assert(out[0] == entry);
        assert forall|m: MonitorWorkspace| m.monitor != entry.monitor implies (
        #[trigger] out.contains(m) <==> list.contains(m)) by {
            if out.contains(m) {
                let j = choose|j: int| 0 <= j < out.len() && out[j] == m;
                assert(list[j] == m);
            }
            if list.contains(m) {
                let j = choose|j: int| 0 <= j < list.len() && list[j] == m;
                assert(out[j] == m);
            }
        }
    } else {
        let rest = list.skip(1);
        let tail = upserted(rest, entry);
        lemma_upserted(rest, entry);
        assert(out =~= seq![list[0]] + tail);
        assert(tail.contains(entry));
        let j = choose|j: int| 0 <= j < tail.len() && tail[j] == entry;
        assert(out[j + 1] == entry);
        assert forall|m: MonitorWorkspace| m.monitor != entry.monitor implies (
        #[trigger] out.contains(m) <==> list.contains(m)) by {
            assert(tail.contains(m) <==> rest.contains(m));
            if out.contains(m) {
                let j = choose|j: int| 0 <= j < out.len() && out[j] == m;
                if j > 0 {
                    assert(tail[j - 1] == m);
                    let q = choose|q: int| 0 <= q < rest.len() && rest[q] == m;
                    assert(list[q + 1] == m);
                } else {
                    assert(list[0] == m);
                }
            }
            if list.contains(m) {
                let j = choose|j: int| 0 <= j < list.len() && list[j] == m;
                if j > 0 {
                    assert(rest[j - 1] == m);
                    let q = choose|q: int| 0 <= q < tail.len() && tail[q] == m;
                    assert(out[q + 1] == m);
                } else {
                    assert(out[0] == m);
                }
            }
        }
        if forall|i: int| 0 <= i < list.len() ==> (#[trigger] list[i]).monitor != entry.monitor {
            assert forall|i: int| 0 <= i < rest.len() implies (#[trigger] rest[i]).monitor
                != entry.monitor by {
                assert(list[i + 1] == rest[i]);
            }
            assert forall|m: MonitorWorkspace|
                m.monitor == entry.monitor && #[trigger] out.contains(m) implies m == entry by {
                let j = choose|j: int| 0 <= j < out.len() && out[j] == m;
                if j > 0 {
                    assert(tail[j - 1] == m);
                    assert(tail.contains(m));
                } else {
                    assert(list[0].monitor != entry.monitor);
                }
            }
        }
    }
}

/// Every display that can be told is listed under the monitor it is, with as many
/// workspaces as it has spaces and showing the one its current space is.
pub proof fn law_every_display_is_listed_with_its_own_spaces(
    displays: Seq<DisplaySpaces>,
    known: Seq<(MonitorId, bool)>,
    i: int,
    k: int,
)
    requires
        0 <= i < displays.len(),
        resolved(displays[i].identifier@, displays[i].parsed, known) is Some,
        forall|j: int|
            0 <= j < displays.len() && j != i ==> resolved(
                (#[trigger] displays[j]).identifier@,
                displays[j].parsed,
                known,
            ) != resolved(displays[i].identifier@, displays[i].parsed, known),
        0 <= k < displays[i].spaces@.len() <= 255,
        displays[i].spaces@[k] == displays[i].current_space,
        forall|x: int, y: int|
            0 <= x < y < displays[i].spaces@.len() ==> displays[i].spaces@[x]
                != displays[i].spaces@[y],
    ensures
        exists|m: int|
            0 <= m < folded(displays, known).per_monitor.len() && {
                let entry = #[trigger] folded(displays, known).per_monitor[m];
                &&& Some(entry.monitor) == resolved(
                    displays[i].identifier@,
                    displays[i].parsed,
                    known,
                )
                &&& entry.count == displays[i].spaces@.len()
                &&& entry.active.0 == k + 1
            },
{
    let d = displays[i];
    let entry = MonitorWorkspace {
        monitor: resolved(d.identifier@, d.parsed, known)->Some_0,
        active: WorkspaceId((k + 1) as u8),
        count: d.spaces@.len() as u8,
    };
    law_active_is_the_current_space(d.spaces@, d.current_space, k);
    lemma_listed(displays, known, i, entry);
    let list = folded(displays, known).per_monitor;
    let m = choose|m: int| 0 <= m < list.len() && list[m] == entry;
    assert(list[m] == entry);
}

proof fn lemma_listed(
    displays: Seq<DisplaySpaces>,
    known: Seq<(MonitorId, bool)>,
    i: int,
    entry: MonitorWorkspace,
)
    requires
        0 <= i < displays.len(),
        ({
            let d = displays[i];
            &&& resolved(d.identifier@, d.parsed, known) == Some(entry.monitor)
            &&& entry.active == active_among(d.spaces@, d.current_space, d.spaces@.len() as int)
            &&& entry.count == offered(d.spaces@.len())
        }),
        forall|j: int|
            0 <= j < displays.len() && j != i ==> resolved(
                (#[trigger] displays[j]).identifier@,
                displays[j].parsed,
                known,
            ) != Some(entry.monitor),
    ensures
        folded(displays, known).per_monitor.contains(entry),
    decreases displays.len(),
{
    let n = displays.len() - 1;
    let init = displays.drop_last();
    let d = displays[n];
    let before = folded(init, known).per_monitor;
    if i < n {
        assert(init[i] == displays[i]);
        assert forall|j: int| 0 <= j < init.len() && j != i implies resolved(
            (#[trigger] init[j]).identifier@,
            init[j].parsed,
            known,
        ) != Some(entry.monitor) by {
            assert(init[j] == displays[j]);
        }
        lemma_listed(init, known, i, entry);
        assert(resolved(displays[n].identifier@, displays[n].parsed, known) != Some(
            entry.monitor,
        ));
        if let Some(monitor) = resolved(d.identifier@, d.parsed, known) {
            let other = MonitorWorkspace {
                monitor,
                active: active_among(d.spaces@, d.current_space, d.spaces@.len() as int),
                count: offered(d.spaces@.len()),
            };
            lemma_upserted(before, other);
            assert(upserted(before, other).contains(entry) <==> before.contains(entry));
        }
    } else {
        lemma_upserted(before, entry);
    }
}

/// A window is on the workspace its space is, and a window whose space says nothing
/// is left out, as long as no window is named twice.
pub proof fn law_windows_are_on_the_workspace_of_their_space(
    windows: Seq<WindowId>,
    homes: Seq<Option<u64>>,
    ordinals: Map<u64, WorkspaceId>,
    n: int,
    i: int,
)
    requires
        0 <= i < n <= windows.len(),
        n <= homes.len(),
        forall|a: int, b: int| 0 <= a < b < windows.len() ==> windows[a] != windows[b],
    ensures
        ({
            let on = placed(windows, homes, ordinals, n);
            let w = windows[i].0;
            &&& on.contains_key(w) <==> homes[i] is Some && ordinals.contains_key(homes[i]->Some_0)
            &&& on.contains_key(w) ==> on[w] == ordinals[homes[i]->Some_0]
        }),
    decreases n,
{
    if i < n - 1 {
        law_windows_are_on_the_workspace_of_their_space(windows, homes, ordinals, n - 1, i);
        assert(windows[i] != windows[n - 1]);
    } else {
        lemma_absent(windows, homes, ordinals, n - 1, i, windows[i].0);
    }
}

proof fn lemma_absent(
    windows: Seq<WindowId>,
    homes: Seq<Option<u64>>,
    ordinals: Map<u64, WorkspaceId>,
    n: int,
    at: int,
    w: u32,
)
    requires
        0 <= n <= at < windows.len(),
        n <= homes.len(),
        windows[at].0 == w,
        forall|a: int, b: int| 0 <= a < b < windows.len() ==> windows[a] != windows[b],
    ensures
        !placed(windows, homes, ordinals, n).contains_key(w),
    decreases n,
{
    if n > 0 {
        lemma_absent(windows, homes, ordinals, n - 1, at, w);
        assert(windows[n - 1] != windows[at]);
    }
}

/// A display offers as many workspaces as it has spaces, one at the least.
pub proof fn law_offers_as_many_as_there_are(spaces: nat)
    ensures
        1 <= spaces <= 255 ==> offered(spaces) == spaces,
        spaces == 0 ==> offered(spaces) == 1,
        spaces > 255 ==> offered(spaces) == 255,
{
}

/// A display whose current space is none of its spaces counts as showing its first
/// workspace.
pub proof fn law_a_display_that_shows_no_space_of_its_own_shows_the_first(
    spaces: Seq<u64>,
    current: u64,
    n: int,
)
    requires
        0 <= n <= spaces.len(),
        forall|j: int| 0 <= j < n ==> spaces[j] != current,
    ensures
        active_among(spaces, current, n).0 == 1,
    decreases n,
{
    if n > 0 {
        law_a_display_that_shows_no_space_of_its_own_shows_the_first(spaces, current, n - 1);
    }
}

/// A display is read as it is written down: its own identifier, the number that
/// says, the spaces of its own that have a number, and the current one, or 0 where
/// that has none.
pub proof fn law_displays_are_read_as_written(raw: RawDisplay, d: DisplaySpaces)
    requires
        reads_as(raw, d),
    ensures
        raw.identifier matches Some(name) ==> d.identifier@ == name@,
        raw.identifier is None ==> d.identifier@.len() == 0,
        d.parsed == raw.parsed,
        space_number(raw.current) matches Some(id) ==> d.current_space == id,
        space_number(raw.current) is None ==> d.current_space == 0,
        d.spaces@ == space_numbers(raw.spaces@),
{
}

/// The word for the main display is "main" letter by letter, each in whatever
/// case, and nothing else is.
pub proof fn law_main_is_said_in_any_case(s: Seq<char>)
    ensures
        says_main(s) <==> s.len() == 4 && (s[0] as int == 0x6D || s[0] as int == 0x4D) && (s[1]
            as int == 0x61 || s[1] as int == 0x41) && (s[2] as int == 0x69 || s[2] as int == 0x49)
            && (s[3] as int == 0x6E || s[3] as int == 0x4E),
{
}

/// An identifier that does not say "main" means the display of its number where
/// that is there, else the single display there is, else none.
pub proof fn law_numbers_mean_their_display(
    identifier: Seq<char>,
    parsed: Option<MonitorId>,
    known: Seq<(MonitorId, bool)>,
    k: int,
)
    requires
        !says_main(identifier),
    ensures
        0 <= k < known.len() && parsed == Some(known[k].0) ==> resolved(identifier, parsed, known)
            == parsed,
        (parsed is None || forall|i: int|
            0 <= i < known.len() ==> (#[trigger] known[i]).0 != parsed->Some_0) ==> resolved(
            identifier,
            parsed,
            known,
        ) == (if known.len() == 1 {
            Some(known[0].0)
        } else {
            None
        }),
{
    if let Some(id) = parsed {
        law_a_display_stands_where_its_number_is(known, id);
    }
}

/// A monitor keeps its place in the list when it is listed anew, and one that was
/// not listed comes last; no other entry changes.
pub proof fn law_a_monitor_is_listed_once(
    list: Seq<MonitorWorkspace>,
    entry: MonitorWorkspace,
    k: int,
)
    requires
        0 <= k <= list.len(),
        forall|i: int| 0 <= i < k ==> (#[trigger] list[i]).monitor != entry.monitor,
        k < list.len() ==> list[k].monitor == entry.monitor,
    ensures
        k < list.len() ==> upserted(list, entry) == list.update(k, entry),
        k == list.len() ==> upserted(list, entry) == list.push(entry),
    decreases list.len(),
{
    if k == 0 {
        if list.len() > 0 {
            assert(upserted(list, entry) =~= list.update(0, entry));
        } else {
            assert(upserted(list, entry) =~= list.push(entry));
        }
    } else {
        let tail = list.skip(1);
        assert(list[0].monitor != entry.monitor);
        assert forall|i: int| 0 <= i < k - 1 implies (#[trigger] tail[i]).monitor
            != entry.monitor by {
            assert(tail[i] == list[i + 1]);
        }
        law_a_monitor_is_listed_once(tail, entry, k - 1);
        if k < list.len() {
            assert(seq![list[0]] + tail.update(k - 1, entry) =~= list.update(k, entry));
        } else {
            assert(seq![list[0]] + tail.push(entry) =~= list.push(entry));
        }
    }
}

/// A window is at home on the space written down as its number, else on the first
/// of the list, and without either on none.
pub proof fn law_a_window_is_at_home_where_it_is_written(number: i64, first: Option<i64>)
    ensures
        number >= 0 ==> either(Some(number), first) == Some(number as u64),
        first matches Some(v) && v >= 0 ==> either(None, first) == Some(first->Some_0 as u64),
        either(Some(number), first) is Some,
        either(None, first) is Some <==> first is Some,
{
}

/// The workspaces are seen as they are held.
pub proof fn law_topologies_are_seen_as_held(t: Topology)
    ensures
        t@.per_monitor == t.per_monitor@,
        t@.space_to_ordinal == t.space_to_ordinal@,
{
}

/// A space that is listed more than once is the workspace of its last place, a
/// space that is not listed stays what it was, and the workspace shown is that of
/// the last place the current space has.
pub proof fn law_the_last_place_counts(
    known: Map<u64, WorkspaceId>,
    spaces: Seq<u64>,
    n: int,
    k: int,
    space: u64,
)
    requires
        -1 <= k < n <= spaces.len(),
        k >= 0 ==> spaces[k] == space,
        forall|i: int| k < i < n ==> spaces[i] != space,
    ensures
        k >= 0 ==> {
            &&& with_spaces(known, spaces, n).contains_key(space)
            &&& with_spaces(known, spaces, n)[space].0 == ordinal_at(k)
            &&& active_among(spaces, space, n).0 == ordinal_at(k)
        },
        k < 0 ==> {
            &&& with_spaces(known, spaces, n).contains_key(space) <==> known.contains_key(space)
            &&& known.contains_key(space) ==> with_spaces(known, spaces, n)[space] == known[space]
        },
    decreases n,
{
    if n > 0 && k < n - 1 {
        assert(spaces[n - 1] != space);
        law_the_last_place_counts(known, spaces, n - 1, k, space);
    }
}

/// Ordinals stop at 255, and past that many they start over.
pub proof fn law_ordinals_stop_at_a_byte(index: int)
    requires
        0 <= index,
    ensures
        ordinal_at(255) == 255,
        ordinal_at(index + 256) == ordinal_at(index),
{
}

/// One display more: one that cannot be told changes nothing, and any other is
/// listed under the monitor it is, with its spaces over those there were.
pub proof fn law_displays_are_taken_one_by_one(
    displays: Seq<DisplaySpaces>,
    d: DisplaySpaces,
    known: Seq<(MonitorId, bool)>,
)
    ensures
        resolved(d.identifier@, d.parsed, known) is None ==> folded(displays.push(d), known)
            == folded(displays, known),
        resolved(d.identifier@, d.parsed, known) matches Some(monitor) ==> {
            let before = folded(displays, known);
            let after = folded(displays.push(d), known);
            let n = d.spaces@.len();
            &&& after.space_to_ordinal == with_spaces(before.space_to_ordinal, d.spaces@, n as int)
            &&& after.per_monitor == upserted(
                before.per_monitor,
                MonitorWorkspace {
                    monitor,
                    active: active_among(d.spaces@, d.current_space, n as int),
                    count: offered(n),
                },
            )
        },
        folded(Seq::empty(), known).per_monitor.len() == 0,
        folded(Seq::empty(), known).space_to_ordinal == Map::<u64, WorkspaceId>::empty(),
{
    assert(displays.push(d).drop_last() =~= displays);
}

/// A number that is written down as a negative one is that of its bits.
pub proof fn law_negative_space_numbers_are_their_bits(v: i64, other: Option<i64>)
    requires
        v < 0,
    ensures
        either(Some(v), other)->Some_0 == v + 0x1_0000_0000_0000_0000,
        either(None, Some(v))->Some_0 == v + 0x1_0000_0000_0000_0000,
{
    assert(v < 0 ==> (v as u64) == v + 0x1_0000_0000_0000_0000) by (bit_vector);
}

/// A window that is named more than once is where it was last found, and one that
/// was never found is left out.
pub proof fn law_the_last_home_counts(
    windows: Seq<WindowId>,
    homes: Seq<Option<u64>>,
    ordinals: Map<u64, WorkspaceId>,
    n: int,
    k: int,
    w: WindowId,
)
    requires
        -1 <= k < n <= windows.len(),
        n <= homes.len(),
        k >= 0 ==> windows[k] == w && homes[k] is Some && ordinals.contains_key(homes[k]->Some_0),
        forall|i: int|
            k < i < n ==> !(#[trigger] windows[i] == w && homes[i] is Some
                && ordinals.contains_key(homes[i]->Some_0)),
    ensures
        k >= 0 ==> placed(windows, homes, ordinals, n).contains_key(w.0) && placed(
            windows,
            homes,
            ordinals,
            n,
        )[w.0] == ordinals[homes[k]->Some_0],
        k < 0 ==> !placed(windows, homes, ordinals, n).contains_key(w.0),
    decreases n,
{
    if n > 0 && k < n - 1 {
        assert(!(windows[n - 1] == w && homes[n - 1] is Some && ordinals.contains_key(
            homes[n - 1]->Some_0,
        )));
        law_the_last_home_counts(windows, homes, ordinals, n - 1, k, w);
        if windows[n - 1].0 == w.0 {
            assert(windows[n - 1] == w);
        }
    }
}

} // verus!
