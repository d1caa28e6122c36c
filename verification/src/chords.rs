//! Chord rows: the bars of a row such as `"A|Bm|C#|x2"`, the chords and
//! rests of each bar, and how often the row repeats.

use vstd::prelude::*;

use crate::pattern::chars_of;
use crate::text::{is_whitespace, push_char, white_space};

verus! {

broadcast use vstd::string::group_string_axioms;

/// The accidental of a chord root.
#[derive(Debug, Clone, Copy, PartialEq, Eq, Structural)]
pub enum Accidental {
    /// No accidental.
    Natural,
    /// Sharp: `#`, or `s` when it does not start `sus`.
    Sharp,
    /// Flat: `b`.
    Flat,
}

/// The alteration that ends a chord.
#[derive(Debug, Clone, Copy, PartialEq, Eq, Structural)]
pub enum Alteration {
    /// A plain triad.
    Triad,
    /// `7`.
    Seven,
    /// `dim`.
    Dim,
    /// `sus4`.
    Sus4,
    /// `sus2`.
    Sus2,
}

/// A chord: its root, accidental, whether it is minor, and its alteration.
#[derive(Debug, Clone, PartialEq)]
pub struct Chord {
    /// The root letter, `A` to `G`.
    pub name: String,
    /// The accidental of the root.
    pub accidental: Accidental,
    /// The chord is minor (`m` after the root).
    pub minor: bool,
    /// The alteration.
    pub alteration: Alteration,
}

/// A rest within a bar.
#[derive(Debug, Clone, Copy, PartialEq, Eq, Structural)]
pub struct Rest {
    /// Its length, in half bars.
    pub duration: u32,
}

/// What a bar holds: chords and rests.
#[derive(Debug, Clone, PartialEq)]
pub enum BarItem {
    /// A chord.
    Chord(Chord),
    /// A rest.
    Rest(Rest),
}

/// One bar of a row.
#[derive(Debug, Clone, PartialEq)]
pub struct Bar {
    /// Its chords and rests, in order.
    pub items: Vec<BarItem>,
}

/// How many times a row is played.
#[derive(Debug, Clone, Copy, PartialEq, Eq, Structural)]
pub struct Repeat {
    /// The number of times.
    pub n: u32,
}

/// A parsed chord row.
#[derive(Debug, Clone, PartialEq)]
pub struct Row {
    /// Its bars, in order.
    pub bars: Vec<Bar>,
    /// How many times it is played.
    pub repeat: Repeat,
}

/// Why a row does not parse.
#[derive(Debug, Clone, PartialEq)]
pub enum ParseError {
    /// A word of a bar is neither a chord nor a rest; an empty bar gives
    /// the empty word.
    InvalidChord(String),
}

/// The fields of `s` between the `|` separators: one more than there are `|`.
pub open spec fn fields(s: Seq<char>) -> Seq<Seq<char>>
    decreases s.len(),
{
    if s.len() == 0 {
        seq![Seq::empty()]
    } else {
        let f = fields(s.drop_last());
        if s.last() == '|' {
            f.push(Seq::empty())
        } else {
            f.update(f.len() - 1, f.last().push(s.last()))
        }
    }
}

/// There is always a field.
pub proof fn lemma_fields_nonempty(s: Seq<char>)
    ensures
        fields(s).len() >= 1,
    decreases s.len(),
{
    if s.len() > 0 {
        lemma_fields_nonempty(s.drop_last());
    }
}

/// The words of `s`: its maximal runs of characters that are not white space.
pub open spec fn words(s: Seq<char>) -> Seq<Seq<char>>
    decreases s.len(),
{
    if s.len() == 0 {
        Seq::empty()
    } else {
        let w = words(s.drop_last());
        let c = s.last();
        if white_space(c) {
            w
        } else if s.len() >= 2 && !white_space(s[s.len() - 2]) {
            w.update(w.len() - 1, w.last().push(c))
        } else {
            w.push(seq![c])
        }
    }
}

/// Text that ends in a character that is not white space has a word.
pub proof fn lemma_words_nonempty(s: Seq<char>)
    requires
        s.len() >= 1,
        !white_space(s.last()),
    ensures
        words(s).len() >= 1,
    decreases s.len(),
{
    if s.len() >= 2 && !white_space(s[s.len() - 2]) {
        lemma_words_nonempty(s.drop_last());
    }
}

/// The character sequences held by a list of character vectors.
pub open spec fn char_views(v: Seq<Vec<char>>) -> Seq<Seq<char>> {
    v.map_values(|x: Vec<char>| x@)
}

/// Appends a character to the last vector of a non-empty list.
fn push_to_last(v: &mut Vec<Vec<char>>, c: char)
    requires
        old(v)@.len() >= 1,
    ensures
        char_views(final(v)@) == char_views(old(v)@).update(
            old(v)@.len() - 1,
            char_views(old(v)@).last().push(c),
        ),
{
    let mut last = v.pop().unwrap();
    last.push(c);
    v.push(last);
    assert(char_views(final(v)@) =~= char_views(old(v)@).update(
        old(v)@.len() - 1,
        char_views(old(v)@).last().push(c),
    ));
}

/// Splits the characters at each `|`.
fn split_fields(c: &Vec<char>) -> (r: Vec<Vec<char>>)
    ensures
        char_views(r@) == fields(c@),
{
    let mut r: Vec<Vec<char>> = Vec::new();
    r.push(Vec::new());
    assert(char_views(r@) =~= fields(c@.take(0)));
    for i in 0..c.len()
        invariant
            char_views(r@) == fields(c@.take(i as int)),
    {
        assert(c@.take(i + 1).drop_last() =~= c@.take(i as int));
        assert(c@.take(i + 1).last() == c@[i as int]);
        proof {
            lemma_fields_nonempty(c@.take(i as int));
        }
        if c[i] == '|' {
            r.push(Vec::new());
            assert(char_views(r@) =~= fields(c@.take(i + 1)));
        } else {
            push_to_last(&mut r, c[i]);
        }
    }
    assert(c@.take(c@.len() as int) =~= c@);
    r
}

/// Splits the characters into their words.
fn split_words(c: &Vec<char>) -> (r: Vec<Vec<char>>)
    ensures
        char_views(r@) == words(c@),
{
    let mut r: Vec<Vec<char>> = Vec::new();
    assert(char_views(r@) =~= words(c@.take(0)));
    for i in 0..c.len()
        invariant
            char_views(r@) == words(c@.take(i as int)),
    {
        let ghost t = c@.take(i + 1);
        assert(t.drop_last() =~= c@.take(i as int));
        assert(t.last() == c@[i as int]);
        if is_whitespace(c[i]) {
        } else if i >= 1 && !is_whitespace(c[i - 1]) {
            assert(t[i - 1] == c@[i - 1]);
            proof {
                assert(c@.take(i as int).last() == c@[i - 1]);
                lemma_words_nonempty(c@.take(i as int));
            }
            push_to_last(&mut r, c[i]);
        } else {
            let mut w: Vec<char> = Vec::new();
            w.push(c[i]);
            let ghost before = r@;
            r.push(w);
            assert(char_views(r@) =~= char_views(before).push(seq![c@[i as int]]));
        }
    }
    assert(c@.take(c@.len() as int) =~= c@);
    r
}

/// `s` starts with `p`.
pub open spec fn starts_with(s: Seq<char>, p: Seq<char>) -> bool {
    p.len() <= s.len() && s.take(p.len() as int) == p
}

/// The accidental that follows a root, and what remains after it.
pub open spec fn accidental_of(s: Seq<char>) -> (Accidental, Seq<char>) {
    if s.len() > 0 && s[0] == '#' {
        (Accidental::Sharp, s.skip(1))
    } else if s.len() > 0 && s[0] == 's' && !starts_with(s, seq!['s', 'u', 's']) {
        (Accidental::Sharp, s.skip(1))
    } else if s.len() > 0 && s[0] == 'b' {
        (Accidental::Flat, s.skip(1))
    } else {
        (Accidental::Natural, s)
    }
}

/// Whether an `m` marks the chord minor, and what remains after it.
pub open spec fn minor_of(s: Seq<char>) -> (bool, Seq<char>) {
    if s.len() > 0 && s[0] == 'm' {
        (true, s.skip(1))
    } else {
        (false, s)
    }
}

/// The alteration that the rest of a chord spells, if any.
pub open spec fn alteration_of(s: Seq<char>) -> Option<Alteration> {
    if s.len() == 0 {
        Some(Alteration::Triad)
    } else if s == seq!['7'] {
        Some(Alteration::Seven)
    } else if s == seq!['d', 'i', 'm'] {
        Some(Alteration::Dim)
    } else if s == seq!['s', 'u', 's', '4'] {
        Some(Alteration::Sus4)
    } else if s == seq!['s', 'u', 's', '2'] {
        Some(Alteration::Sus2)
    } else {
        None
    }
}

/// A chord root: a letter from `A` to `G`.
pub open spec fn is_root(c: char) -> bool {
    'A' <= c <= 'G'
}

/// The parts of the chord that the word `t` spells: root, accidental,
/// minor, alteration.
pub open spec fn chord_parts(t: Seq<char>) -> Option<(char, Accidental, bool, Alteration)> {
    if t.len() == 0 || !is_root(t[0]) {
        None
    } else {
        let (acc, r1) = accidental_of(t.skip(1));
        let (minor, r2) = minor_of(r1);
        match alteration_of(r2) {
            Some(alt) => Some((t[0], acc, minor, alt)),
            None => None,
        }
    }
}

/// The word of a half-bar rest.
pub open spec fn is_rest(t: Seq<char>) -> bool {
    t == seq!['H', 'R', 'e', 's', 't']
}

/// The word is a chord or a rest.
pub open spec fn item_ok(t: Seq<char>) -> bool {
    is_rest(t) || chord_parts(t) is Some
}

/// `i` is the item that the word `t` spells.
pub open spec fn item_parses(i: BarItem, t: Seq<char>) -> bool {
    if is_rest(t) {
        i matches BarItem::Rest(r) && r.duration == 1
    } else {
        match chord_parts(t) {
            Some(p) => i matches BarItem::Chord(c) && c.name@ == seq![p.0] && c.accidental == p.1
                && c.minor == p.2 && c.alteration == p.3,
            None => false,
        }
    }
}

/// Whether the characters `k..` of `t` are `p`.
fn rest_is(t: &Vec<char>, k: usize, p: &Vec<char>) -> (r: bool)
    requires
        k <= t@.len(),
    ensures
        r == (t@.skip(k as int) == p@),
{
    if t.len() - k != p.len() {
        assert(t@.skip(k as int).len() != p@.len());
        return false;
    }
    for j in 0..p.len()
        invariant
            k <= t@.len(),
            t@.len() - k == p@.len(),
            forall|x: int| 0 <= x < j ==> t@[k + x] == p@[x],
    {
        assert(k + j < t@.len() && t@.len() == t.len());
        if t[k + j] != p[j] {
            assert(t@.skip(k as int)[j as int] != p@[j as int]);
            return false;
        }
    }
    assert(t@.skip(k as int) =~= p@);
    true
}

/// The characters of a short word.
fn word(a: char, b: char, c: char, d: char, n: usize) -> (r: Vec<char>)
    requires
        1 <= n <= 4,
    ensures
        r@ == seq![a, b, c, d].take(n as int),
{
    let mut r: Vec<char> = Vec::new();
    r.push(a);
    if n >= 2 {
        r.push(b);
    }
    if n >= 3 {
        r.push(c);
    }
    if n >= 4 {
        r.push(d);
    }
    assert(r@ =~= seq![a, b, c, d].take(n as int));
    r
}

/// The alteration that the characters `k..` of `t` spell.
fn alteration_at(t: &Vec<char>, k: usize) -> (r: Option<Alteration>)
    requires
        k <= t@.len(),
    ensures
        r == alteration_of(t@.skip(k as int)),
{
    assert(seq!['7', ' ', ' ', ' '].take(1) =~= seq!['7']);
    assert(seq!['d', 'i', 'm', ' '].take(3) =~= seq!['d', 'i', 'm']);
    assert(seq!['s', 'u', 's', '4'].take(4) =~= seq!['s', 'u', 's', '4']);
    assert(seq!['s', 'u', 's', '2'].take(4) =~= seq!['s', 'u', 's', '2']);
    if k == t.len() {
        Some(Alteration::Triad)
    } else if rest_is(t, k, &word('7', ' ', ' ', ' ', 1)) {
        Some(Alteration::Seven)
    } else if rest_is(t, k, &word('d', 'i', 'm', ' ', 3)) {
        Some(Alteration::Dim)
    } else if rest_is(t, k, &word('s', 'u', 's', '4', 4)) {
        Some(Alteration::Sus4)
    } else if rest_is(t, k, &word('s', 'u', 's', '2', 4)) {
        Some(Alteration::Sus2)
    } else {
        None
    }
}

/// The item that a word spells, if it spells one.
fn parse_item(t: &Vec<char>) -> (r: Option<BarItem>)
    ensures
        r is Some <==> item_ok(t@),
        r matches Some(i) ==> item_parses(i, t@),
{
    if t.len() == 5 && t[0] == 'H' && t[1] == 'R' && t[2] == 'e' && t[3] == 's' && t[4] == 't' {
        assert(t@ =~= seq!['H', 'R', 'e', 's', 't']);
        return Some(BarItem::Rest(Rest { duration: 1 }));
    }
    assert(!is_rest(t@)) by {
        if is_rest(t@) {
            assert(t@[0] == 'H' && t@[1] == 'R' && t@[2] == 'e' && t@[3] == 's' && t@[4] == 't');
        }
    }
    if t.len() == 0 || !('A' <= t[0] && t[0] <= 'G') {
        return None;
    }
    let ghost s1 = t@.skip(1);
    let mut k: usize = 1;
    let accidental = if t.len() > 1 && t[1] == '#' {
        k = 2;
        Accidental::Sharp
    } else if t.len() > 1 && t[1] == 's' && !(t.len() >= 4 && t[2] == 'u' && t[3] == 's') {
        proof {
            if starts_with(s1, seq!['s', 'u', 's']) {
                assert(s1.take(3)[1] == 'u');
                assert(s1.take(3)[2] == 's');
            }
        }
        k = 2;
        Accidental::Sharp
    } else if t.len() > 1 && t[1] == 'b' {
        proof {
            if t[1] == 's' {
                assert(s1.take(3) =~= seq!['s', 'u', 's']);
            }
        }
        k = 2;
        Accidental::Flat
    } else {
        proof {
            if t.len() > 1 && t[1] == 's' {
                assert(s1.take(3) =~= seq!['s', 'u', 's']);
            }
        }
        Accidental::Natural
    };
    assert(accidental_of(s1) == (accidental, t@.skip(k as int))) by {
        if k == 2 {
            assert(s1.skip(1) =~= t@.skip(2));
        }
    }
    let ghost s2 = t@.skip(k as int);
    let minor = if k < t.len() && t[k] == 'm' {
        k = k + 1;
        assert(s2.skip(1) =~= t@.skip(k as int));
        true
    } else {
        false
    };
    assert(minor_of(s2) == (minor, t@.skip(k as int)));
    match alteration_at(t, k) {
        Some(alteration) => {
            let mut name = String::new();
            push_char(&mut name, t[0]);
            assert(name@ =~= seq![t@[0]]);
            Some(BarItem::Chord(Chord { name, accidental, minor, alteration }))
        },
        None => None,
    }
}

/// A decimal digit.
pub open spec fn is_digit(c: char) -> bool {
    '0' <= c <= '9'
}

/// The value of a run of decimal digits.
pub open spec fn digits_value(s: Seq<char>) -> int
    decreases s.len(),
{
    if s.len() == 0 {
        0
    } else {
        digits_value(s.drop_last()) * 10 + (s.last() as int - '0' as int)
    }
}

/// The number of times that a word such as `x2` plays a row, when the word
/// is an `x` and digits whose value fits in a `u32`.
pub open spec fn repeat_of(t: Seq<char>) -> Option<u32> {
    if t.len() >= 2 && t[0] == 'x' && (forall|i: int| 1 <= i < t.len() ==> is_digit(#[trigger] t[i]))
        && digits_value(t.skip(1)) <= u32::MAX {
        Some(digits_value(t.skip(1)) as u32)
    } else {
        None
    }
}

/// The repeat count that a word spells, if it spells one.
fn repeat_value(t: &Vec<char>) -> (r: Option<u32>)
    ensures
        r == repeat_of(t@),
{
    if t.len() < 2 || t[0] != 'x' {
        return None;
    }
    let ghost d = t@.skip(1);
    let mut v: u64 = 0;
    let mut i: usize = 1;
    assert(d.take(0) =~= Seq::<char>::empty());
    while i < t.len()
        invariant
            1 <= i <= t@.len(),
            d == t@.skip(1),
            forall|x: int| 1 <= x < i ==> is_digit(#[trigger] t@[x]),
            digits_value(d.take(i - 1)) >= 0,
            v == (if digits_value(d.take(i - 1)) > u32::MAX {
                u32::MAX as int + 1
            } else {
                digits_value(d.take(i - 1))
            }),
        decreases t@.len() - i,
    {
        let c = t[i];
        if !('0' <= c && c <= '9') {
            assert(!is_digit(t@[i as int]));
            return None;
        }
        assert(d.take(i as int).drop_last() =~= d.take(i - 1));
        assert(d.take(i as int).last() == c);
        let dig = (c as u32 - '0' as u32) as u64;
        if v <= 0xffff_ffff {
            v = v * 10 + dig;
            if v > 0xffff_ffff {
                v = 0x1_0000_0000;
            }
        }
        i = i + 1;
    }
    assert(d.take(t@.len() - 1) =~= d);
    if v <= 0xffff_ffff {
        Some(v as u32)
    } else {
        None
    }
}

/// The bars of a row as words, and how often it is played: the fields
/// between the `|`, where a last field that is a lone repeat word such as
/// `x2` gives the count and is no bar; the count is 1 otherwise.
pub open spec fn row_tokens(s: Seq<char>) -> (Seq<Seq<Seq<char>>>, u32) {
    let f = fields(s);
    let lw = words(f.last());
    let rep = if lw.len() == 1 {
        repeat_of(lw[0])
    } else {
        None
    };
    match rep {
        Some(n) => (f.drop_last().map_values(|x: Seq<char>| words(x)), n),
        None => (f.map_values(|x: Seq<char>| words(x)), 1u32),
    }
}

/// The first word of a bar that is neither a chord nor a rest.
pub open spec fn bar_error(ws: Seq<Seq<char>>) -> Option<Seq<char>>
    decreases ws.len(),
{
    if ws.len() == 0 {
        None
    } else {
        match bar_error(ws.drop_last()) {
            Some(e) => Some(e),
            None => if item_ok(ws.last()) {
                None
            } else {
                Some(ws.last())
            },
        }
    }
}

/// The first fault of a row, bar by bar: an empty bar gives the empty word,
/// a bar with a bad word gives that word.
pub open spec fn row_error(tb: Seq<Seq<Seq<char>>>) -> Option<Seq<char>>
    decreases tb.len(),
{
    if tb.len() == 0 {
        None
    } else {
        match row_error(tb.drop_last()) {
            Some(e) => Some(e),
            None => if tb.last().len() == 0 {
                Some(Seq::empty())
            } else {
                bar_error(tb.last())
            },
        }
    }
}

/// The bar holds the items its words spell, in order.
pub open spec fn bar_parses(b: Bar, ws: Seq<Seq<char>>) -> bool {
    &&& b.items@.len() == ws.len()
    &&& forall|j: int| 0 <= j < ws.len() ==> item_parses(#[trigger] b.items@[j], ws[j])
}

/// A fault of a bar's first words is the fault of the bar.
proof fn lemma_bar_error_prefix(ws: Seq<Seq<char>>, k: int)
    requires
        0 <= k <= ws.len(),
        bar_error(ws.take(k)) is Some,
    ensures
        bar_error(ws) == bar_error(ws.take(k)),
    decreases ws.len(),
{
    if k == ws.len() {
        assert(ws.take(k) =~= ws);
    } else {
        assert(ws.drop_last().take(k) =~= ws.take(k));
        lemma_bar_error_prefix(ws.drop_last(), k);
    }
}

/// A fault of a row's first bars is the fault of the row.
proof fn lemma_row_error_prefix(tb: Seq<Seq<Seq<char>>>, k: int)
    requires
        0 <= k <= tb.len(),
        row_error(tb.take(k)) is Some,
    ensures
        row_error(tb) == row_error(tb.take(k)),
    decreases tb.len(),
{
    if k == tb.len() {
        assert(tb.take(k) =~= tb);
    } else {
        assert(tb.drop_last().take(k) =~= tb.take(k));
        lemma_row_error_prefix(tb.drop_last(), k);
    }
}

/// Parses a chord row such as `"Em | Am Bm7|HRest|x2"`: its bars are
/// separated by `|`, the words of a bar are its chords and rests, and a
/// last field `x<n>` plays the row `n` times. The first word that is neither
/// a chord nor a rest fails the row, and so does an empty bar.
pub fn parse(input: &str) -> (r: Result<Row, ParseError>)
    ensures
        r is Ok <==> row_error(row_tokens(input@).0) is None,
        r matches Ok(row) ==> row.repeat.n == row_tokens(input@).1 && row.bars@.len() == row_tokens(
            input@,
        ).0.len() && forall|i: int|
            0 <= i < row.bars@.len() ==> bar_parses(#[trigger] row.bars@[i], row_tokens(input@).0[i]),
        r matches Err(ParseError::InvalidChord(e)) ==> row_error(row_tokens(input@).0) == Some(e@),
{
    let c = chars_of(input);
    let f = split_fields(&c);
    proof {
        lemma_fields_nonempty(c@);
    }
    let ghost fv = char_views(f@);
    assert(fv.last() == f@[f@.len() - 1]@);
    let lw = split_words(&f[f.len() - 1]);
    let rep = if lw.len() == 1 {
        assert(words(fv.last())[0] == lw@[0]@);
        repeat_value(&lw[0])
    } else {
        None
    };
    let nb: usize = match rep {
        Some(_) => f.len() - 1,
        None => f.len(),
    };
    let n: u32 = match rep {
        Some(k) => k,
        None => 1,
    };
    let ghost tb = row_tokens(input@).0;
    assert(tb.len() == nb && row_tokens(input@).1 == n);
    assert(forall|i: int| 0 <= i < nb ==> #[trigger] tb[i] == words(f@[i]@));
    let mut bars: Vec<Bar> = Vec::new();
    for i in 0..nb
        invariant
            tb == row_tokens(input@).0,
            nb <= f@.len(),
            tb.len() == nb,
            forall|x: int| 0 <= x < nb ==> #[trigger] tb[x] == words(f@[x]@),
            bars@.len() == i,
            forall|x: int| 0 <= x < i ==> bar_parses(#[trigger] bars@[x], tb[x]),
            row_error(tb.take(i as int)) is None,
    {
        let ws = split_words(&f[i]);
        let ghost wv = char_views(ws@);
        assert(wv == tb[i as int]);
        assert(tb.take(i + 1).drop_last() =~= tb.take(i as int));
        assert(tb.take(i + 1).last() == tb[i as int]);
        if ws.len() == 0 {
            assert(row_error(tb.take(i + 1)) == Some(Seq::<char>::empty()));
            proof {
                lemma_row_error_prefix(tb, i + 1);
            }
            let e = String::new();
            assert(e@ =~= Seq::<char>::empty());
            return Err(ParseError::InvalidChord(e));
        }
        let mut items: Vec<BarItem> = Vec::new();
        for j in 0..ws.len()
            invariant
                tb == row_tokens(input@).0,
                i < nb,
                tb.len() == nb,
                wv == tb[i as int],
                wv.len() > 0,
                row_error(tb.take(i as int)) is None,
                tb.take(i + 1).drop_last() == tb.take(i as int),
                tb.take(i + 1).last() == tb[i as int],
                wv == char_views(ws@),
                items@.len() == j,
                forall|x: int| 0 <= x < j ==> item_parses(#[trigger] items@[x], wv[x]),
                bar_error(wv.take(j as int)) is None,
        {
            assert(wv.take(j + 1).drop_last() =~= wv.take(j as int));
            assert(wv.take(j + 1).last() == wv[j as int]);
            assert(wv[j as int] == ws@[j as int]@);
            match parse_item(&ws[j]) {
                Some(it) => {
                    items.push(it);
                },
                None => {
                    let e = crate::paths::string_of_range(&ws[j], 0, ws[j].len());
                    assert(e@ =~= wv[j as int]);
                    proof {
                        lemma_bar_error_prefix(wv, j + 1);
                        assert(row_error(tb.take(i + 1)) == Some(wv[j as int]));
                        lemma_row_error_prefix(tb, i + 1);
                    }
                    return Err(ParseError::InvalidChord(e));
                },
            }
        }
        assert(wv.take(ws@.len() as int) =~= wv);
        bars.push(Bar { items });
    }
    assert(tb.take(nb as int) =~= tb);
    Ok(Row { bars, repeat: Repeat { n } })
}

/// The accidental is read on its own, whatever follows it: a chord spelled
/// without accidental, such as `Bm`, `E7` or `Asus4`, spelled again with `b`
/// or `#` after its root (`Bbm`, `E#7`, `Absus4`) is the same chord, flat or
/// sharp.
pub proof fn lemma_accidental_is_read_on_its_own(t: Seq<char>)
    requires
        chord_parts(t) matches Some(p) && p.1 == Accidental::Natural,
    ensures
        chord_parts(t) matches Some(p) ==> chord_parts(seq![t[0], 'b'] + t.skip(1)) == Some((t[0], Accidental::Flat, p.2, p.3)),
        chord_parts(t) matches Some(p) ==> chord_parts(seq![t[0], '#'] + t.skip(1)) == Some((t[0], Accidental::Sharp, p.2, p.3)),
        item_ok(seq![t[0], 'b'] + t.skip(1)),
        item_ok(seq![t[0], '#'] + t.skip(1)),
{
    let rest = t.skip(1);
    let (acc, r1) = accidental_of(rest);
    assert(acc == Accidental::Natural);
    assert(r1 == rest);
    let f = seq![t[0], 'b'] + rest;
    let h = seq![t[0], '#'] + rest;
    assert(f.skip(1) =~= seq!['b'] + rest);
    assert(f.skip(1).skip(1) =~= rest);
    assert(h.skip(1) =~= seq!['#'] + rest);
    assert(h.skip(1).skip(1) =~= rest);
    assert(f[0] == t[0] && h[0] == t[0]);
    assert(!is_rest(f)) by {
        if is_rest(f) {
            assert(f[1] == 'R');
        }
    }
    assert(!is_rest(h)) by {
        if is_rest(h) {
            assert(h[1] == 'R');
        }
    }
}

} // verus!
