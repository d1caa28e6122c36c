//! Click tracks: bar positions of the clicks and the beats between them.

use vstd::prelude::*;

use crate::text::concat;
use vstd::string::StringExecFns;

verus! {

broadcast use vstd::string::group_string_axioms;

/// Beats in a bar.
pub const BEATS_PER_BAR: u32 = 4;

/// Build node for `clicks.yml`, whose click times are interpolated from the
/// `clicks-def.yml` before it.
#[derive(Debug, Clone, PartialEq)]
pub struct ClickYml {
    /// Path of `clicks.yml`, relative to the songs directory.
    pub path: String,
}

impl ClickYml {
    /// Creates the node for the given path.
    pub fn new(path: String) -> (r: Self)
        ensures
            r.path == path,
    {
        Self { path }
    }
}

/// The absolute beat (1-based) of beat `beat` of bar `bar`, four beats to a bar.
pub open spec fn absolute_beat_of(bar: int, beat: int) -> int {
    (bar - 1) * 4 + beat
}

/// Computes the absolute beat number (1-based) from bar and beat-in-bar.
pub fn absolute_beat(bar_number: u32, beat_in_bar_number: u32) -> (r: u32)
    requires
        bar_number >= 1,
        absolute_beat_of(bar_number as int, beat_in_bar_number as int) <= u32::MAX,
    ensures
        r == absolute_beat_of(bar_number as int, beat_in_bar_number as int),
{
    (bar_number - 1) * 4 + beat_in_bar_number
}

/// The index of the first tick of bar `bar` (1-based) in a list of clicks,
/// four ticks to a bar.
pub fn tick_index_of_bar(bar: u32) -> (r: usize)
    requires
        bar >= 1,
        (bar - 1) * 4 <= usize::MAX,
    ensures
        r == (bar - 1) * 4,
{
    (bar as usize - 1) * 4
}

/// Where a click sits, as read from `clicks-def.yml`: an explicit bar, or
/// the section whose first bar it is.
#[derive(Debug, Clone, PartialEq)]
pub struct ClickAnchor {
    /// Explicit bar number (1-based).
    pub bar_number: Option<u32>,
    /// Section id whose first bar is used.
    pub section_id: Option<String>,
}

/// The bars of a song, by section id: the first bar of each row of the
/// section, and the bar that follows the section.
pub type BarMap = Vec<(String, Vec<i32>, i32)>;

/// `i` is the last entry of `m` for `id`.
pub open spec fn is_last_entry(m: Seq<(String, Vec<i32>, i32)>, id: Seq<char>, i: int) -> bool {
    &&& 0 <= i < m.len()
    &&& m[i].0@ == id
    &&& forall|j: int| i < j < m.len() ==> m[j].0@ != id
}

/// `m` has an entry for `id`.
pub open spec fn has_entry(m: Seq<(String, Vec<i32>, i32)>, id: Seq<char>) -> bool {
    exists|i: int| 0 <= i < m.len() && (#[trigger] m[i]).0@ == id
}

/// The message of a section id given where no song structure is at hand.
pub open spec fn no_structure_message(id: Seq<char>) -> Seq<char> {
    "section_id '"@ + id + "' used but no song structure available"@
}

/// The message of a section id that the song does not have.
pub open spec fn not_found_message(id: Seq<char>) -> Seq<char> {
    "section_id '"@ + id + "' not found in song structure"@
}

/// The message of a section without bars.
pub open spec fn no_bars_message(id: Seq<char>) -> Seq<char> {
    "section '"@ + id + "' has no bars"@
}

/// The message of a click with neither a bar nor a section.
pub open spec fn neither_message() -> Seq<char> {
    "click entry has neither bar_number nor section_id"@
}

/// The message of a click with both a bar and a section.
pub open spec fn both_message(id: Seq<char>) -> Seq<char> {
    "click entry has both bar_number and section_id '"@ + id + "'"@
}

/// What the anchor resolves to: its bar, or the first bar of its section.
pub open spec fn resolved_bar(anchor: ClickAnchor, bar_map: Option<Seq<(String, Vec<i32>, i32)>>) -> Result<u32, Seq<char>> {
    match (anchor.bar_number, anchor.section_id) {
        (Some(n), None) => Ok(n),
        (None, Some(id)) => match bar_map {
            None => Err(no_structure_message(id@)),
            Some(m) => if !has_entry(m, id@) {
                Err(not_found_message(id@))
            } else {
                let i = choose|i: int| is_last_entry(m, id@, i);
                if m[i].1@.len() == 0 {
                    Err(no_bars_message(id@))
                } else {
                    Ok(m[i].1@[0] as u32)
                }
            },
        },
        (None, None) => Err(neither_message()),
        (Some(_), Some(id)) => Err(both_message(id@)),
    }
}

/// The last entry of `id` in `m`.
pub(crate) fn find_entry(m: &BarMap, id: &String) -> (r: Option<usize>)
    ensures
        r matches Some(i) ==> is_last_entry(m@, id@, i as int),
        r is None <==> !has_entry(m@, id@),
{
    let mut k: usize = m.len();
    while k > 0
        invariant
            k <= m.len(),
            forall|j: int| k <= j < m@.len() ==> m@[j].0@ != id@,
        decreases k,
    {
        if m[k - 1].0 == *id {
            return Some(k - 1);
        }
        k = k - 1;
    }
    None
}

/// There is exactly one last entry of an id that has an entry.
pub(crate) proof fn lemma_last_entry_unique(m: Seq<(String, Vec<i32>, i32)>, id: Seq<char>, i: int)
    requires
        is_last_entry(m, id, i),
    ensures
        has_entry(m, id),
        (choose|j: int| is_last_entry(m, id, j)) == i,
{
    assert(m[i].0@ == id);
    let j = choose|j: int| is_last_entry(m, id, j);
    if j < i {
        assert(m[i].0@ != id);
    }
    if j > i {
        assert(m[j].0@ != id);
    }
}

/// The entries of the bar map, when there is one.
pub open spec fn map_view(bar_map: Option<&BarMap>) -> Option<Seq<(String, Vec<i32>, i32)>> {
    match bar_map {
        Some(m) => Some(m@),
        None => None,
    }
}

/// Resolves the bar of one click: its explicit `bar_number`, or the first bar
/// of the section named by its `section_id`. Exactly one of them must be set.
pub fn resolve_bar_number(anchor: &ClickAnchor, bar_map: Option<&BarMap>) -> (r: Result<u32, String>)
    ensures
        match r {
            Ok(n) => resolved_bar(*anchor, map_view(bar_map)) == Ok::<u32, Seq<char>>(n),
            Err(e) => resolved_bar(*anchor, map_view(bar_map)) == Err::<u32, Seq<char>>(e@),
        },
{
    match (&anchor.bar_number, &anchor.section_id) {
        (Some(n), None) => Ok(*n),
        (None, Some(id)) => {
            match bar_map {
                None => {
                    let mut e = concat("section_id '", id.as_str());
                    e.append("' used but no song structure available");
                    Err(e)
                },
                Some(m) => {
                    match find_entry(m, id) {
                        None => {
                            let mut e = concat("section_id '", id.as_str());
                            e.append("' not found in song structure");
                            Err(e)
                        },
                        Some(i) => {
                            proof {
                                lemma_last_entry_unique(m@, id@, i as int);
                            }
                            if m[i].1.len() == 0 {
                                let mut e = concat("section '", id.as_str());
                                e.append("' has no bars");
                                Err(e)
                            } else {
                                Ok(m[i].1[0] as u32)
                            }
                        },
                    }
                },
            }
        },
        (None, None) => Err(String::from_str("click entry has neither bar_number nor section_id")),
        (Some(_), Some(id)) => {
            let mut e = concat("click entry has both bar_number and section_id '", id.as_str());
            e.append("'");
            Err(e)
        },
    }
}


/// Each anchor resolved in order, or the error of the first that does not resolve.
pub open spec fn all_resolved(anchors: Seq<ClickAnchor>, bar_map: Option<Seq<(String, Vec<i32>, i32)>>, bars: Seq<u32>) -> bool {
    &&& bars.len() == anchors.len()
    &&& forall|i: int| 0 <= i < anchors.len() ==> resolved_bar(#[trigger] anchors[i], bar_map) == Ok::<u32, Seq<char>>(bars[i])
}

/// Resolves the bar of every click, in order. The first click that does not
/// resolve fails the whole definition with its message.
pub fn resolve_bar_numbers(anchors: &Vec<ClickAnchor>, bar_map: Option<&BarMap>) -> (r: Result<Vec<u32>, String>)
    ensures
        r matches Ok(bars) ==> all_resolved(anchors@, map_view(bar_map), bars@),
        r is Ok <==> forall|i: int| 0 <= i < anchors@.len() ==> resolved_bar(#[trigger] anchors@[i], map_view(bar_map)) is Ok,
        r matches Err(e) ==> exists|i: int| 0 <= i < anchors@.len() && resolved_bar(#[trigger] anchors@[i], map_view(bar_map)) == Err::<u32, Seq<char>>(e@)
            && forall|j: int| 0 <= j < i ==> resolved_bar(#[trigger] anchors@[j], map_view(bar_map)) is Ok,
{
    let mut bars: Vec<u32> = Vec::new();
    for i in 0..anchors.len()
        invariant
            bars@.len() == i,
            forall|j: int| 0 <= j < i ==> resolved_bar(#[trigger] anchors@[j], map_view(bar_map)) == Ok::<u32, Seq<char>>(bars@[j]),
    {
        match resolve_bar_number(&anchors[i], bar_map) {
            Ok(n) => {
                bars.push(n);
            },
            Err(e) => {
                return Err(e);
            },
        }
    }
    Ok(bars)
}

/// The absolute beat of a click at `(bar, beat)`.
pub open spec fn beat_at(p: (u32, u32)) -> int {
    absolute_beat_of(p.0 as int, p.1 as int)
}

/// Every click has a bar from 1 on, its beat fits in a `u32`, and no click
/// comes before the one ahead of it.
pub open spec fn beats_in_order(ps: Seq<(u32, u32)>) -> bool {
    &&& forall|i: int| 0 <= i < ps.len() ==> (#[trigger] ps[i]).0 >= 1 && beat_at(ps[i]) <= u32::MAX
    &&& forall|i: int| 0 <= i < ps.len() - 1 ==> beat_at(#[trigger] ps[i]) <= beat_at(ps[i + 1])
}

/// The beats to interpolate, one triple `(k, i, n)` per beat: the `i`-th of
/// the `n` beats that go from click `k` to click `k + 1`.
pub open spec fn interpolation_steps_of(ps: Seq<(u32, u32)>) -> Seq<(int, int, int)>
    decreases ps.len(),
{
    if ps.len() < 2 {
        Seq::empty()
    } else {
        let k = ps.len() - 2;
        let n = beat_at(ps[k + 1]) - beat_at(ps[k]);
        interpolation_steps_of(ps.drop_last()) + Seq::new(n as nat, |i: int| (k, i, n))
    }
}

/// The beats from the first click to the last number their difference.
pub proof fn lemma_interpolation_length(ps: Seq<(u32, u32)>)
    requires
        ps.len() >= 2,
        beats_in_order(ps),
    ensures
        interpolation_steps_of(ps).len() == beat_at(ps.last()) - beat_at(ps[0]),
    decreases ps.len(),
{
    if ps.len() > 2 {
        let q = ps.drop_last();
        assert forall|i: int| 0 <= i < q.len() - 1 implies beat_at(#[trigger] q[i]) <= beat_at(q[i + 1]) by {
            assert(q[i] == ps[i]);
            assert(beat_at(ps[i]) <= beat_at(ps[i + 1]));
        }
        lemma_interpolation_length(q);
        assert(beat_at(ps[ps.len() - 2]) <= beat_at(ps[ps.len() - 1]));
        assert(q.last() == ps[ps.len() - 2]);
        assert(q[0] == ps[0]);
    } else {
        assert(beat_at(ps[0]) <= beat_at(ps[1]));
        assert(interpolation_steps_of(ps.drop_last()).len() == 0);
    }
}

/// The step triples as executable values.
pub open spec fn step_views(v: Seq<(usize, u32, u32)>) -> Seq<(int, int, int)> {
    v.map_values(|t: (usize, u32, u32)| (t.0 as int, t.1 as int, t.2 as int))
}

/// The beats between consecutive clicks, in order: for each pair of clicks,
/// one step per beat from the first of the pair up to, not including, the
/// second. A click time then follows for every step, and the last click adds
/// its own, so the track has one time per beat from the first click to the last.
pub fn interpolation_steps(positions: &Vec<(u32, u32)>) -> (r: Vec<(usize, u32, u32)>)
    requires
        beats_in_order(positions@),
    ensures
        step_views(r@) == interpolation_steps_of(positions@),
        positions@.len() >= 2 ==> r@.len() == beat_at(positions@.last()) - beat_at(positions@[0]),
{
    let mut r: Vec<(usize, u32, u32)> = Vec::new();
    if positions.len() < 2 {
        assert(step_views(r@) =~= interpolation_steps_of(positions@));
        return r;
    }
    let mut k: usize = 0;
    while k < positions.len() - 1
        invariant
            beats_in_order(positions@),
            positions@.len() >= 2,
            k + 1 <= positions@.len(),
            step_views(r@) == interpolation_steps_of(positions@.take(k + 1)),
        decreases positions@.len() - k,
    {
        let from = absolute_beat(positions[k].0, positions[k].1);
        let to = absolute_beat(positions[k + 1].0, positions[k + 1].1);
        assert(beat_at(positions@[k as int]) <= beat_at(positions@[k + 1]));
        let n = to - from;
        let ghost before = r@;
        let mut i: u32 = 0;
        while i < n
            invariant
                i <= n,
                r@.len() == before.len() + i,
                forall|x: int| 0 <= x < before.len() ==> r@[x] == before[x],
                forall|x: int| before.len() <= x < r@.len() ==> r@[x] == (k, (x - before.len()) as u32, n),
            decreases n - i,
        {
            r.push((k, i, n));
            i = i + 1;
        }
        proof {
            let p2 = positions@.take(k + 2);
            assert(p2.drop_last() =~= positions@.take(k + 1));
            assert(p2[k as int] == positions@[k as int]);
            assert(p2[k + 1] == positions@[k + 1]);
            assert(step_views(r@) =~= interpolation_steps_of(p2));
        }
        k = k + 1;
    }
    assert(positions@.take(k + 1) =~= positions@);
    proof {
        lemma_interpolation_length(positions@);
    }
    r
}

/// Whether the clicks can be interpolated: every bar from 1 on, every
/// absolute beat within a `u32`, and no click before the one ahead of it.
pub fn beats_are_in_order(positions: &Vec<(u32, u32)>) -> (r: bool)
    ensures
        r == beats_in_order(positions@),
{
    let mut prev: u64 = 0;
    for i in 0..positions.len()
        invariant
            forall|j: int| 0 <= j < i ==> (#[trigger] positions@[j]).0 >= 1 && beat_at(positions@[j]) <= u32::MAX,
            forall|j: int| 0 <= j < i - 1 ==> beat_at(#[trigger] positions@[j]) <= beat_at(positions@[j + 1]),
            i > 0 ==> prev == beat_at(positions@[i - 1]),
    {
        let (bar, beat) = positions[i];
        if bar < 1 {
            return false;
        }
        let b: u64 = (bar as u64 - 1) * 4 + beat as u64;
        if b > 0xffff_ffff {
            return false;
        }
        if i > 0 && b < prev {
            assert(!(beat_at(positions@[i - 1]) <= beat_at(positions@[i as int])));
            return false;
        }
        prev = b;
    }
    true
}

/// Whether some click is anchored to a section, so that the song structure
/// is needed to resolve the clicks.
pub fn needs_song_structure(anchors: &Vec<ClickAnchor>) -> (r: bool)
    ensures
        r <==> exists|i: int| 0 <= i < anchors@.len() && (#[trigger] anchors@[i]).section_id is Some,
{
    for i in 0..anchors.len()
        invariant
            forall|j: int| 0 <= j < i ==> (#[trigger] anchors@[j]).section_id is None,
    {
        if anchors[i].section_id.is_some() {
            return true;
        }
    }
    false
}

/// The positions of the predecessors tagged `clicks-def`, in order.
pub open spec fn clicks_def_positions(tags: Seq<Seq<char>>) -> Seq<int>
    decreases tags.len(),
{
    if tags.len() == 0 {
        Seq::empty()
    } else {
        let rest = clicks_def_positions(tags.drop_last());
        if tags.last() == "clicks-def"@ {
            rest.push(tags.len() - 1)
        } else {
            rest
        }
    }
}

/// The one predecessor of `clicks.yml` tagged `clicks-def`, given the tags of
/// all its predecessors: its position when there is exactly one, otherwise
/// how many there are.
pub fn single_clicks_def(tags: &Vec<String>) -> (r: Result<usize, usize>)
    ensures
        match r {
            Ok(i) => clicks_def_positions(crate::plan::string_views(tags@)) == seq![i as int],
            Err(n) => n == clicks_def_positions(crate::plan::string_views(tags@)).len() && n != 1,
        },
{
    let ghost tv = crate::plan::string_views(tags@);
    let mut count: usize = 0;
    let mut first: usize = 0;
    assert(tv.take(0) =~= Seq::<Seq<char>>::empty());
    for i in 0..tags.len()
        invariant
            tv == crate::plan::string_views(tags@),
            count == clicks_def_positions(tv.take(i as int)).len(),
            count <= i,
            count >= 1 ==> clicks_def_positions(tv.take(i as int))[0] == first,
    {
        assert(tv.take(i + 1).drop_last() =~= tv.take(i as int));
        assert(tv.take(i + 1).last() == tags@[i as int]@);
        if crate::text::str_eq(tags[i].as_str(), "clicks-def") {
            if count == 0 {
                first = i;
            }
            count = count + 1;
        }
    }
    assert(tv.take(tags@.len() as int) =~= tv);
    if count == 1 {
        assert(clicks_def_positions(tv) =~= seq![first as int]);
        Ok(first)
    } else {
        Err(count)
    }
}

} // verus!
