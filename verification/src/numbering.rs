//! Bar numbering: where each section of a song starts, row by row, counting
//! the bars of each row as often as the row is played.

use vstd::prelude::*;

use crate::chords::{parse, row_error, row_tokens};
use crate::clicks::{is_last_entry, lemma_last_entry_unique, resolved_bar, BarMap, ClickAnchor};
use crate::model::{SectionItem, StructureItem};

verus! {

broadcast use vstd::string::group_string_axioms;

/// The bars a row counts: its bars times how often it is played; a row that
/// does not parse counts none.
pub open spec fn row_bars(row: Seq<char>) -> nat {
    if row_error(row_tokens(row).0) is None {
        row_tokens(row).0.len() * (row_tokens(row).1 as nat)
    } else {
        0
    }
}

/// The rows of the last chords section with id `link`, if there is one.
pub open spec fn linked_rows(structure: Seq<StructureItem>, link: Seq<char>) -> Option<Seq<String>>
    decreases structure.len(),
{
    if structure.len() == 0 {
        None
    } else {
        let last = structure.last();
        if last.item is Chords && last.id@ == link {
            Some(last.item->Chords_0.rows@)
        } else {
            linked_rows(structure.drop_last(), link)
        }
    }
}

/// The rows a section plays: its own for a chords section, those of the
/// chords section it links to for a ref (none when the link names no chords
/// section). Other items play no rows and get no bar numbers.
pub open spec fn rows_of(structure: Seq<StructureItem>, item: StructureItem) -> Option<Seq<String>> {
    match item.item {
        SectionItem::Chords(c) => Some(c.rows@),
        SectionItem::Ref(r) => match linked_rows(structure, r.link@) {
            Some(rows) => Some(rows),
            None => Some(Seq::empty()),
        },
        _ => None,
    }
}

/// The first bar of each row, the rows starting at bar `cur`, and the bar
/// that follows them.
pub open spec fn row_starts(cur: int, rows: Seq<String>) -> (Seq<int>, int)
    decreases rows.len(),
{
    if rows.len() == 0 {
        (Seq::empty(), cur)
    } else {
        let (st, next) = row_starts(cur, rows.drop_last());
        (st.push(next), next + row_bars(rows.last()@))
    }
}

/// The bar numbers of the sections of `items`, numbered from bar 1 within
/// `structure`: for each chords or ref section its id, the first bar of
/// each row and the bar after the section; and the bar after the last.
pub open spec fn numbering(structure: Seq<StructureItem>, items: Seq<StructureItem>) -> (
    Seq<(Seq<char>, Seq<int>, int)>,
    int,
)
    decreases items.len(),
{
    if items.len() == 0 {
        (Seq::empty(), 1)
    } else {
        let (m, cur) = numbering(structure, items.drop_last());
        match rows_of(structure, items.last()) {
            Some(rows) => {
                let (st, next) = row_starts(cur, rows);
                (m.push((items.last().id@, st, next)), next)
            },
            None => (m, cur),
        }
    }
}

/// The entries of a bar map as plain values.
pub open spec fn entry_views(m: Seq<(String, Vec<i32>, i32)>) -> Seq<(Seq<char>, Seq<int>, int)> {
    m.map_values(|e: (String, Vec<i32>, i32)| (e.0@, e.1@.map_values(|b: i32| b as int), e.2 as int))
}

/// Row starts never go back: each start lies between the first bar and the
/// bar after the rows.
proof fn lemma_row_starts_bounds(cur: int, rows: Seq<String>)
    ensures
        row_starts(cur, rows).1 >= cur,
        row_starts(cur, rows).0.len() == rows.len(),
        forall|i: int|
            0 <= i < rows.len() ==> cur <= #[trigger] row_starts(cur, rows).0[i] <= row_starts(cur, rows).1,
    decreases rows.len(),
{
    if rows.len() > 0 {
        lemma_row_starts_bounds(cur, rows.drop_last());
    }
}

/// The bar after a prefix of the items comes no later than the bar after all.
proof fn lemma_numbering_grows(structure: Seq<StructureItem>, items: Seq<StructureItem>, k: int)
    requires
        0 <= k <= items.len(),
    ensures
        1 <= numbering(structure, items.take(k)).1 <= numbering(structure, items).1,
    decreases items.len(),
{
    if k == items.len() {
        assert(items.take(k) =~= items);
        if items.len() > 0 {
            lemma_numbering_grows(structure, items.drop_last(), k - 1);
            assert(items.drop_last().take(k - 1) =~= items.drop_last());
            match rows_of(structure, items.last()) {
                Some(rows) => {
                    lemma_row_starts_bounds(numbering(structure, items.drop_last()).1, rows);
                },
                None => {},
            }
        }
    } else {
        assert(items.drop_last().take(k) =~= items.take(k));
        lemma_numbering_grows(structure, items.drop_last(), k);
        lemma_numbering_grows(structure, items.drop_last(), items.len() - 1);
        assert(items.drop_last().take(items.len() - 1) =~= items.drop_last());
        match rows_of(structure, items.last()) {
            Some(rows) => {
                lemma_row_starts_bounds(numbering(structure, items.drop_last()).1, rows);
            },
            None => {},
        }
    }
}

/// The rows of the last chords section with id `link`.
fn find_linked_rows(structure: &Vec<StructureItem>, link: &String) -> (r: Option<usize>)
    ensures
        match r {
            Some(k) => k < structure@.len() && structure@[k as int].item is Chords && linked_rows(
                structure@,
                link@,
            ) == Some(structure@[k as int].item->Chords_0.rows@),
            None => linked_rows(structure@, link@) is None,
        },
{
    let mut k: usize = structure.len();
    assert(structure@.take(k as int) =~= structure@);
    while k > 0
        invariant
            k <= structure.len(),
            linked_rows(structure@, link@) == linked_rows(structure@.take(k as int), link@),
        decreases k,
    {
        assert(structure@.take(k as int).drop_last() =~= structure@.take(k - 1));
        assert(structure@.take(k as int).last() == structure@[k - 1]);
        if structure[k - 1].id == *link {
            if let SectionItem::Chords(_) = &structure[k - 1].item {
                return Some(k - 1);
            }
        }
        k = k - 1;
    }
    None
}

/// The bars that a row counts.
fn bars_of_row(row: &String) -> (r: u128)
    ensures
        r == row_bars(row@),
{
    match parse(row.as_str()) {
        Ok(parsed) => {
            let b = parsed.bars.len() as u128;
            let n = parsed.repeat.n as u128;
            assert(b * n <= 0xffff_ffff_ffff_ffff * 0xffff_ffff) by (nonlinear_arith)
                requires
                    b <= 0xffff_ffff_ffff_ffff,
                    n <= 0xffff_ffff,
            ;
            b * n
        },
        Err(_) => 0,
    }
}

/// Numbers the bars of the structure: for each chords or ref section, in
/// order, its id, the first bar of each of its rows and the bar after the
/// section, counting from bar 1. `None` when a bar number would not fit in
/// an `i32`.
pub fn bar_map_of_structure(structure: &Vec<StructureItem>) -> (r: Option<BarMap>)
    ensures
        r is None <==> numbering(structure@, structure@).1 > i32::MAX,
        r matches Some(m) ==> entry_views(m@) == numbering(structure@, structure@).0,
        r matches Some(m) ==> crate::songyml::ends_have_predecessor(m@),
{
    let mut m: BarMap = Vec::new();
    let mut cur: u128 = 1;
    for i in 0..structure.len()
        invariant
            1 <= cur <= i32::MAX,
            forall|x: int| 0 <= x < m@.len() ==> (#[trigger] m@[x]).2 >= 1,
            entry_views(m@) == numbering(structure@, structure@.take(i as int)).0,
            cur == numbering(structure@, structure@.take(i as int)).1,
    {
        let item = &structure[i];
        assert(structure@.take(i + 1).drop_last() =~= structure@.take(i as int));
        assert(structure@.take(i + 1).last() == structure@[i as int]);
        let rows: Option<&Vec<String>> = match &item.item {
            SectionItem::Chords(c) => Some(&c.rows),
            SectionItem::Ref(rf) => match find_linked_rows(structure, &rf.link) {
                Some(k) => match &structure[k].item {
                    SectionItem::Chords(c) => Some(&c.rows),
                    _ => None,
                },
                None => None,
            },
            _ => None,
        };
        let is_section = match &item.item {
            SectionItem::Chords(_) => true,
            SectionItem::Ref(_) => true,
            _ => false,
        };
        if is_section {
            let ghost rv: Seq<String> = match rows {
                Some(v) => v@,
                None => Seq::empty(),
            };
            assert(rows_of(structure@, structure@[i as int]) == Some(rv));
            let ghost start = cur as int;
            let mut starts: Vec<i32> = Vec::new();
            let mut next: u128 = cur;
            let n_rows: usize = match rows {
                Some(v) => v.len(),
                None => 0,
            };
            for j in 0..n_rows
                invariant
                    n_rows == rv.len(),
                    rows matches Some(v) ==> v@ == rv,
                    rows is None ==> rv.len() == 0,
                    i < structure@.len(),
                    start == numbering(structure@, structure@.take(i as int)).1,
                    rows_of(structure@, structure@[i as int]) == Some(rv),
                    structure@.take(i + 1).drop_last() == structure@.take(i as int),
                    structure@.take(i + 1).last() == structure@[i as int],
                    start <= next <= i32::MAX,
                    1 <= start,
                    starts@.map_values(|b: i32| b as int) == row_starts(start, rv.take(j as int)).0,
                    next == row_starts(start, rv.take(j as int)).1,
            {
                let row: &String = match rows {
                    Some(v) => &v[j],
                    None => {
                        assert(false);
                        return None;
                    },
                };
                assert(rv.take(j + 1).drop_last() =~= rv.take(j as int));
                assert(rv.take(j + 1).last() == rv[j as int]);
                let ghost before = starts@;
                starts.push(next as i32);
                assert(starts@.map_values(|b: i32| b as int) =~= before.map_values(|b: i32| b as int).push(next as int));
                let count = bars_of_row(row);
                if count > 0x7fff_ffff - next {
                    proof {
                        assert(row_starts(start, rv.take(j + 1)).1 > i32::MAX);
                        lemma_row_starts_tail(start, rv, j + 1);
                        assert(numbering(structure@, structure@.take(i + 1)).1 == row_starts(start, rv).1);
                        lemma_numbering_grows(structure@, structure@, i + 1);
                    }
                    return None;
                }
                next = next + count;
            }
            assert(rv.take(n_rows as int) =~= rv);
            let ghost mb = m@;
            m.push((item.id.clone(), starts, next as i32));
            assert(entry_views(m@) =~= entry_views(mb).push((item.id@, row_starts(start, rv).0, row_starts(start, rv).1)));
            cur = next;
        } else {
            assert(rows_of(structure@, structure@[i as int]) is None);
        }
    }
    assert(structure@.take(structure@.len() as int) =~= structure@);
    Some(m)
}

/// The bar after a prefix of the rows comes no later than the bar after all.
proof fn lemma_row_starts_tail(cur: int, rows: Seq<String>, k: int)
    requires
        0 <= k <= rows.len(),
    ensures
        row_starts(cur, rows.take(k)).1 <= row_starts(cur, rows).1,
    decreases rows.len(),
{
    if k == rows.len() {
        assert(rows.take(k) =~= rows);
    } else {
        assert(rows.drop_last().take(k) =~= rows.take(k));
        lemma_row_starts_tail(cur, rows.drop_last(), k);
    }
}

/// The first row of a section starts where the section starts.
proof fn lemma_first_row_start(cur: int, rows: Seq<String>)
    requires
        rows.len() > 0,
    ensures
        row_starts(cur, rows).0[0] == cur,
    decreases rows.len(),
{
    let (st, next) = row_starts(cur, rows.drop_last());
    if rows.len() > 1 {
        lemma_first_row_start(cur, rows.drop_last());
        lemma_row_starts_bounds(cur, rows.drop_last());
        assert(st.push(next)[0] == st[0]);
    } else {
        assert(rows.drop_last().len() == 0);
        assert(st.len() == 0 && next == cur);
        assert(st.push(next)[0] == next);
    }
}

/// The bar where the `k`-th numbered section starts: bar 1 for the first,
/// the bar after the one before it otherwise.
pub open spec fn section_start(m: Seq<(Seq<char>, Seq<int>, int)>, k: int) -> int {
    if k == 0 {
        1
    } else {
        m[k - 1].2
    }
}

/// Sections follow each other without gap or overlap: each section with rows
/// starts, with its first row, at the bar after the section before it (at
/// bar 1 for the first), and the bar after the last section is the bar after
/// all of them.
pub proof fn lemma_sections_follow_each_other(structure: Seq<StructureItem>, items: Seq<StructureItem>)
    ensures
        forall|k: int|
            0 <= k < numbering(structure, items).0.len() && (#[trigger] numbering(structure, items).0[k]).1.len() > 0
                ==> numbering(structure, items).0[k].1[0] == section_start(numbering(structure, items).0, k),
        numbering(structure, items).1 == section_start(
            numbering(structure, items).0,
            numbering(structure, items).0.len() as int,
        ),
    decreases items.len(),
{
    if items.len() > 0 {
        let prev = numbering(structure, items.drop_last());
        lemma_sections_follow_each_other(structure, items.drop_last());
        match rows_of(structure, items.last()) {
            Some(rows) => {
                let m = numbering(structure, items).0;
                assert(m == prev.0.push((items.last().id@, row_starts(prev.1, rows).0, row_starts(prev.1, rows).1)));
                if rows.len() > 0 {
                    lemma_first_row_start(prev.1, rows);
                }
                lemma_row_starts_bounds(prev.1, rows);
                assert forall|k: int| 0 <= k < m.len() && (#[trigger] m[k]).1.len() > 0 implies m[k].1[0]
                    == section_start(m, k) by {
                    if k < m.len() - 1 {
                        assert(m[k] == prev.0[k]);
                        if k > 0 {
                            assert(m[k - 1] == prev.0[k - 1]);
                        }
                    } else if k > 0 {
                        assert(m[k - 1] == prev.0[k - 1]);
                    }
                }
            },
            None => {},
        }
    }
}

/// A click anchored to a section of a numbered song resolves to the bar
/// where that section starts: the bar after the section before it, or bar 1.
pub proof fn lemma_section_anchor_resolves_to_section_start(
    structure: Seq<StructureItem>,
    m: BarMap,
    anchor: ClickAnchor,
    i: int,
)
    requires
        entry_views(m@) == numbering(structure, structure).0,
        anchor.bar_number is None,
        anchor.section_id is Some,
        is_last_entry(m@, anchor.section_id->0@, i),
        m@[i].1@.len() > 0,
    ensures
        resolved_bar(anchor, Some(m@)) == Ok::<u32, Seq<char>>(
            section_start(numbering(structure, structure).0, i) as u32,
        ),
        section_start(numbering(structure, structure).0, i) >= 1,
{
    lemma_sections_follow_each_other(structure, structure);
    lemma_last_entry_unique(m@, anchor.section_id->0@, i);
    let n = numbering(structure, structure).0;
    assert(n[i] == entry_views(m@)[i]);
    assert(n[i].1[0] == m@[i].1@[0] as int);
    lemma_starts_positive(structure, structure);
}

/// Every bar number of a numbering is at least 1.
proof fn lemma_starts_positive(structure: Seq<StructureItem>, items: Seq<StructureItem>)
    ensures
        numbering(structure, items).1 >= 1,
        forall|k: int| 0 <= k < numbering(structure, items).0.len() ==> (#[trigger] numbering(structure, items).0[k]).2 >= 1,
        forall|k: int| 0 <= k <= numbering(structure, items).0.len() ==> section_start(numbering(structure, items).0, k) >= 1,
    decreases items.len(),
{
    if items.len() > 0 {
        let prev = numbering(structure, items.drop_last());
        lemma_starts_positive(structure, items.drop_last());
        match rows_of(structure, items.last()) {
            Some(rows) => {
                lemma_row_starts_bounds(prev.1, rows);
                let m = numbering(structure, items).0;
                assert forall|k: int| 0 <= k < m.len() implies (#[trigger] m[k]).2 >= 1 by {
                    if k < m.len() - 1 {
                        assert(m[k] == prev.0[k]);
                    }
                }
                assert forall|k: int| 0 <= k <= m.len() implies section_start(m, k) >= 1 by {
                    if 0 < k {
                        assert(m[k - 1].2 >= 1);
                    }
                }
            },
            None => {},
        }
    }
}

} // verus!
