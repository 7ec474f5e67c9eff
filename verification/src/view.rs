//! What the screens show: the rows of the statistics tables, the player card,
//! the tab titles, the key hints and the placement of the smaller boxes.
//!
//! Drawing happens outside the library; the functions here decide the texts
//! and numbers that are drawn. Values whose display goes through floating
//! point arrive already written out.

use vstd::prelude::*;
use vstd::utf8::encode_utf8;

use crate::api::{
    entry_value, field_text, is_map_segment, lookup, segment_is_map, LifetimeSegment, MatchItem,
    PlayerLifetimeStats, StatEntry, StatValue,
};
use crate::app::{opt_text, App, InputMode, LoadingState, Rect, Toast};
use crate::api::{Cs2Info, PlayerProfile};
use crate::format::{
    fmt_timestamp, is_timestamp_key, is_timestamp_shape, key_order, key_rank_fits, lowercase,
    match_key_order, timestamp_cuts_ok, timestamp_display, timestamp_key_text, to_uppercase,
    uppercase,
};
use crate::summary::{result_letter, text_before, text_lt};
use crate::text::{
    chars_of, decimal, join2, join3, lemma_encode_utf8_monotone, lemma_encode_utf8_push_len,
    line_bounds, lines, owned, same_text, u64_text, usize_text, utf8_len_exceeds,
};

verus! {

broadcast use vstd::string::group_string_axioms;

// ---------------------------------------------------------------------------
// Match list
// ---------------------------------------------------------------------------

/// Whether the match has a field named `key`.
pub open spec fn has_field(item: Seq<(String, String)>, key: Seq<char>) -> bool
    decreases item.len(),
{
    if item.len() == 0 {
        false
    } else if item[0].0@ == key {
        true
    } else {
        has_field(item.drop_first(), key)
    }
}

/// Whether the match has a field named `key`.
fn match_has_field(item: &MatchItem, key: &str) -> (r: bool)
    ensures
        r == has_field(item@, key@),
{
    let mut i: usize = 0;
    assert(item@.skip(0) == item@);
    while i < item.len()
        invariant
            i <= item.len(),
            has_field(item@, key@) == has_field(item@.skip(i as int), key@),
        decreases item.len() - i,
    {
        assert(item@.skip(i as int)[0] == item@[i as int]);
        if same_text(item[i].0.as_str(), key) {
            return true;
        }
        assert(item@.skip(i as int).drop_first() == item@.skip(i + 1));
        i = i + 1;
    }
    assert(item@.skip(i as int).len() == 0);
    false
}

/// The kills and deaths of a match as `kills/deaths`, or its kill/death ratio
/// when either is missing.
pub open spec fn kd_cell(item: Seq<(String, String)>) -> Seq<char> {
    let kills = field_text(item, "Kills"@);
    let deaths = field_text(item, "Deaths"@);
    if kills.len() == 0 || deaths.len() == 0 {
        field_text(item, "K/D Ratio"@)
    } else {
        kills + "/"@ + deaths
    }
}

/// The headshot share of a match: the field `Headshots %` where the match has
/// one, else `Headshots`.
pub open spec fn headshots_cell(item: Seq<(String, String)>) -> Seq<char> {
    if has_field(item, "Headshots %"@) {
        field_text(item, "Headshots %"@)
    } else {
        field_text(item, "Headshots"@)
    }
}

/// One row of the match list.
pub struct MatchRow {
    pub map: String,
    pub score: String,
    pub result: String,
    pub kd: String,
    pub adr: String,
    pub headshots: String,
}

/// The row of the match list that shows `item`: map, score, result letter,
/// kills/deaths, average damage and headshot share.
pub fn match_row(item: &MatchItem) -> (r: MatchRow)
    ensures
        r.map@ == field_text(item@, "Map"@),
        r.score@ == field_text(item@, "Score"@),
        r.result@ == result_letter(field_text(item@, "Result"@)),
        r.kd@ == kd_cell(item@),
        r.adr@ == field_text(item@, "ADR"@),
        r.headshots@ == headshots_cell(item@),
{
    let map = crate::api::match_field(item, "Map");
    let score = crate::api::match_field(item, "Score");
    let result = crate::api::match_field(item, "Result");
    let kills = crate::api::match_field(item, "Kills");
    let deaths = crate::api::match_field(item, "Deaths");
    let adr = crate::api::match_field(item, "ADR");
    let letter = if same_text(result.as_str(), "1") {
        "W"
    } else if same_text(result.as_str(), "0") {
        "L"
    } else {
        "?"
    };
    let kd = if kills.as_str().is_empty() || deaths.as_str().is_empty() {
        crate::api::match_field(item, "K/D Ratio")
    } else {
        let mut t = kills;
        t.append("/");
        t.append(deaths.as_str());
        t
    };
    let headshots = if match_has_field(item, "Headshots %") {
        crate::api::match_field(item, "Headshots %")
    } else {
        crate::api::match_field(item, "Headshots")
    };
    MatchRow { map, score, result: owned(letter), kd, adr, headshots }
}

// ---------------------------------------------------------------------------
// Map list
// ---------------------------------------------------------------------------

/// Whether `c` is an ASCII decimal digit.
pub open spec fn is_digit(c: char) -> bool {
    '0' <= c <= '9'
}

/// The value of a decimal digit character (0 for any other character).
pub open spec fn digit_value(c: char) -> nat {
    if is_digit(c) {
        (c as int - 48) as nat
    } else {
        0
    }
}

/// The number that the decimal digits `d` write.
pub open spec fn digits_value(d: Seq<char>) -> nat
    decreases d.len(),
{
    if d.len() == 0 {
        0
    } else {
        digits_value(d.drop_last()) * 10 + digit_value(d.last())
    }
}

/// The text after an optional leading `+`.
pub open spec fn unsigned_part(s: Seq<char>) -> Seq<char> {
    if s.len() > 0 && s[0] == '+' {
        s.drop_first()
    } else {
        s
    }
}

/// Whether every character of `d` is a decimal digit.
pub open spec fn all_digits(d: Seq<char>) -> bool {
    forall|i: int| 0 <= i < d.len() ==> is_digit(#[trigger] d[i])
}

/// `str::parse::<u32>`: an optional `+` and then one or more ASCII digits whose
/// value fits in a `u32`; anything else is no number.
pub open spec fn parsed_u32(s: Seq<char>) -> Option<u32> {
    let d = unsigned_part(s);
    if d.len() > 0 && all_digits(d) && digits_value(d) <= u32::MAX {
        Some(digits_value(d) as u32)
    } else {
        None
    }
}

/// Proof that a prefix of digits writes no larger a number than the whole.
proof fn lemma_digits_value_prefix(d: Seq<char>, j: int)
    requires
        0 <= j <= d.len(),
    ensures
        digits_value(d.take(j)) <= digits_value(d),
    decreases d.len() - j,
{
    if j < d.len() {
        lemma_digits_value_prefix(d, j + 1);
        assert(d.take(j + 1).drop_last() == d.take(j));
    } else {
        assert(d.take(j) == d);
    }
}

/// Reads a count the way `str::parse::<u32>` does.
pub fn parse_u32(s: &str) -> (r: Option<u32>)
    ensures
        r == parsed_u32(s@),
{
    let v = chars_of(s);
    let start: usize = if v.len() > 0 && v[0] == '+' {
        1
    } else {
        0
    };
    let ghost d = v@.skip(start as int);
    assert(d == unsigned_part(s@));
    if start == v.len() {
        return None;
    }
    let mut i = start;
    while i < v.len()
        invariant
            start <= i <= v.len(),
            d == v@.skip(start as int),
            d == unsigned_part(s@),
            forall|k: int| 0 <= k < i - start ==> is_digit(#[trigger] d[k]),
        decreases v.len() - i,
    {
        if v[i] < '0' || v[i] > '9' {
            assert(d[i - start] == v@[i as int]);
            assert(!all_digits(d));
            return None;
        }
        assert(d[i - start] == v@[i as int]);
        i = i + 1;
    }
    let mut acc: u64 = 0;
    let mut j = start;
    assert(d.take(0) == Seq::<char>::empty());
    while j < v.len()
        invariant
            start <= j <= v.len(),
            d == v@.skip(start as int),
            d == unsigned_part(s@),
            d.len() == v.len() - start,
            forall|k: int| 0 <= k < d.len() ==> is_digit(#[trigger] d[k]),
            acc == digits_value(d.take(j - start)),
            acc <= u32::MAX,
        decreases v.len() - j,
    {
        let c = v[j];
        proof {
            assert(d[j - start] == c);
            assert(d.take(j + 1 - start).drop_last() == d.take(j - start));
            assert(d.take(j + 1 - start).last() == c);
        }
        let x = (c as u32 - 48) as u64;
        assert(x == digit_value(c));
        acc = acc * 10 + x;
        assert(acc == digits_value(d.take(j + 1 - start)));
        if acc > 0xFFFF_FFFF {
            proof {
                lemma_digits_value_prefix(d, j + 1 - start);
            }
            return None;
        }
        j = j + 1;
    }
    assert(d.take(j - start) == d);
    Some(acc as u32)
}

/// A value as shown, or nothing.
pub open spec fn shown(o: Option<String>) -> Seq<char> {
    match o {
        Some(t) => t@,
        None => Seq::empty(),
    }
}

/// A count as shown, read back as a number (0 when it is not one).
pub open spec fn shown_count(o: Option<String>) -> nat {
    match parsed_u32(shown(o)) {
        Some(n) => n as nat,
        None => 0,
    }
}

/// One row of the map list.
pub struct MapRow {
    pub label: String,
    pub matches: String,
    pub wins: String,
    pub losses: String,
    pub win_rate: String,
}

fn shown_text(o: Option<String>) -> (s: String)
    ensures
        s@ == shown(o),
{
    match o {
        Some(t) => t,
        None => String::new(),
    }
}

/// The row of the map list for a map segment labelled `label` whose statistics
/// `Matches`, `Wins`, `Win Rate %` and `Losses` are shown as the texts given
/// (`None` where the segment lacks one). Without a loss count the losses are
/// the matches less the wins, as far as both read as counts (0 below zero).
pub fn map_row(
    label: &Option<String>,
    matches: Option<String>,
    wins: Option<String>,
    win_rate: Option<String>,
    losses: Option<String>,
) -> (r: MapRow)
    ensures
        r.label@ == match *label {
            Some(l) => l@,
            None => "?"@,
        },
        r.matches@ == shown(matches),
        r.wins@ == shown(wins),
        r.win_rate@ == shown(win_rate),
        r.losses@ == match losses {
            Some(l) => l@,
            None => decimal(
                if shown_count(matches) >= shown_count(wins) {
                    shown_count(matches) - shown_count(wins)
                } else {
                    0
                },
            ),
        },
{
    let label_text = match label {
        Some(l) => l.clone(),
        None => owned("?"),
    };
    let matches_text = shown_text(matches);
    let wins_text = shown_text(wins);
    let losses_text = match losses {
        Some(l) => l,
        None => {
            let m: u32 = match parse_u32(matches_text.as_str()) {
                Some(n) => n,
                None => 0,
            };
            let w: u32 = match parse_u32(wins_text.as_str()) {
                Some(n) => n,
                None => 0,
            };
            let left: u32 = if m >= w {
                m - w
            } else {
                0
            };
            u64_text(left as u64)
        },
    };
    MapRow {
        label: label_text,
        matches: matches_text,
        wins: wins_text,
        losses: losses_text,
        win_rate: shown_text(win_rate),
    }
}

/// The positions of the map segments among `segs`, in order.
pub open spec fn map_positions(segs: Seq<LifetimeSegment>) -> Seq<int>
    decreases segs.len(),
{
    if segs.len() == 0 {
        Seq::empty()
    } else {
        let rest = map_positions(segs.drop_last());
        if is_map_segment(segs.last()) {
            rest.push(segs.len() - 1)
        } else {
            rest
        }
    }
}

/// Proof that the map positions are positions of map segments, in increasing
/// order.
pub proof fn lemma_map_positions(segs: Seq<LifetimeSegment>)
    ensures
        forall|k: int|
            #![trigger map_positions(segs)[k]]
            0 <= k < map_positions(segs).len() ==> 0 <= map_positions(segs)[k] < segs.len()
                && is_map_segment(segs[map_positions(segs)[k]]),
        map_positions(segs).len() <= segs.len(),
    decreases segs.len(),
{
    if segs.len() > 0 {
        lemma_map_positions(segs.drop_last());
    }
}

/// The positions of the map segments, in order: the rows of the map list.
pub fn map_segment_positions(segs: &Vec<LifetimeSegment>) -> (r: Vec<usize>)
    ensures
        r@.len() == map_positions(segs@).len(),
        forall|k: int| 0 <= k < r@.len() ==> #[trigger] r@[k] as int == map_positions(segs@)[k],
{
    let mut r: Vec<usize> = Vec::new();
    let mut i: usize = 0;
    while i < segs.len()
        invariant
            i <= segs.len(),
            r@.len() == map_positions(segs@.take(i as int)).len(),
            forall|k: int|
                0 <= k < r@.len() ==> #[trigger] r@[k] as int == map_positions(
                    segs@.take(i as int),
                )[k],
        decreases segs.len() - i,
    {
        proof {
            assert(segs@.take(i + 1).drop_last() == segs@.take(i as int));
            assert(segs@.take(i + 1).last() == segs@[i as int]);
        }
        if segment_is_map(&segs[i]) {
            r.push(i);
        }
        i = i + 1;
    }
    assert(segs@.take(i as int) == segs@);
    r
}

// ---------------------------------------------------------------------------
// Stable ordering
// ---------------------------------------------------------------------------

/// Where position `i` goes among the positions `order` (already ordered by
/// `before`): after every position that `i` is not `before`.
pub open spec fn place(order: Seq<int>, before: spec_fn(int, int) -> bool, i: int) -> nat
    decreases order.len(),
{
    if order.len() == 0 {
        0
    } else if before(i, order.last()) {
        place(order.drop_last(), before, i)
    } else {
        order.len()
    }
}

/// The positions `0..n` ordered by `before`, positions that neither precedes
/// in their first order: what a stable sort does.
pub open spec fn stable_order(before: spec_fn(int, int) -> bool, n: nat) -> Seq<int>
    decreases n,
{
    if n == 0 {
        Seq::empty()
    } else {
        let rest = stable_order(before, (n - 1) as nat);
        rest.insert(place(rest, before, n - 1) as int, n - 1)
    }
}

/// Proof that a place lies within the positions.
proof fn lemma_place_bound(order: Seq<int>, before: spec_fn(int, int) -> bool, i: int)
    ensures
        place(order, before, i) <= order.len(),
    decreases order.len(),
{
    if order.len() > 0 {
        lemma_place_bound(order.drop_last(), before, i);
    }
}

/// Proof that the stable order holds `n` positions, each below `n`.
pub proof fn lemma_stable_order_bounds(before: spec_fn(int, int) -> bool, n: nat)
    ensures
        stable_order(before, n).len() == n,
        forall|k: int|
            #![trigger stable_order(before, n)[k]]
            0 <= k < n ==> 0 <= stable_order(before, n)[k] < n,
    decreases n,
{
    if n > 0 {
        let rest = stable_order(before, (n - 1) as nat);
        lemma_stable_order_bounds(before, (n - 1) as nat);
        lemma_place_bound(rest, before, n - 1);
        let p = place(rest, before, n - 1) as int;
        assert forall|k: int|
            #![trigger stable_order(before, n)[k]]
            0 <= k < n implies 0 <= stable_order(before, n)[k] < n by {
            if k < p {
                assert(stable_order(before, n)[k] == rest[k]);
            } else if k > p {
                assert(stable_order(before, n)[k] == rest[k - 1]);
            }
        }
    }
}

/// Proof that the stable order lists every position below `n`.
pub proof fn lemma_stable_order_complete(before: spec_fn(int, int) -> bool, n: nat, i: int)
    requires
        0 <= i < n,
    ensures
        exists|k: int| 0 <= k < n && #[trigger] stable_order(before, n)[k] == i,
    decreases n,
{
    let rest = stable_order(before, (n - 1) as nat);
    lemma_stable_order_bounds(before, (n - 1) as nat);
    lemma_place_bound(rest, before, n - 1);
    let p = place(rest, before, n - 1) as int;
    let whole = stable_order(before, n);
    assert(whole == rest.insert(p, n - 1));
    if i == n - 1 {
        assert(whole[p] == i);
    } else {
        lemma_stable_order_complete(before, (n - 1) as nat, i);
        let k = choose|k: int| 0 <= k < n - 1 && #[trigger] rest[k] == i;
        if k < p {
            assert(whole[k] == i);
        } else {
            assert(whole[k + 1] == i);
        }
    }
}

/// Proof of where `place` puts `i`: before every position that `i` is
/// `before`, and right after one that it is not.
proof fn lemma_place(order: Seq<int>, before: spec_fn(int, int) -> bool, i: int)
    ensures
        place(order, before, i) <= order.len(),
        forall|j: int|
            place(order, before, i) <= j < order.len() ==> before(i, #[trigger] order[j]),
        place(order, before, i) > 0 ==> !before(
            i,
            order[place(order, before, i) - 1],
        ),
    decreases order.len(),
{
    if order.len() > 0 && before(i, order.last()) {
        let init = order.drop_last();
        lemma_place(init, before, i);
        assert forall|j: int|
            place(order, before, i) <= j < order.len() implies before(i, #[trigger] order[j]) by {
            if j < init.len() {
                assert(order[j] == init[j]);
            }
        }
        if place(order, before, i) > 0 {
            assert(order[place(order, before, i) - 1] == init[place(init, before, i) - 1]);
        }
    }
}

/// Proof that the stable order lists each position once.
pub proof fn lemma_stable_order_distinct(before: spec_fn(int, int) -> bool, n: nat)
    ensures
        forall|a: int, b: int|
            0 <= a < b < n ==> stable_order(before, n)[a] != stable_order(before, n)[b],
    decreases n,
{
    if n > 0 {
        let rest = stable_order(before, (n - 1) as nat);
        lemma_stable_order_distinct(before, (n - 1) as nat);
        lemma_stable_order_bounds(before, (n - 1) as nat);
        lemma_place_bound(rest, before, n - 1);
        let p = place(rest, before, n - 1) as int;
        let o = stable_order(before, n);
        assert(o == rest.insert(p, n - 1));
        assert forall|a: int, b: int| 0 <= a < b < n implies o[a] != o[b] by {
            let ra = if a < p { a } else { a - 1 };
            let rb = if b < p { b } else { b - 1 };
            if a != p && b != p {
                assert(o[a] == rest[ra]);
                assert(o[b] == rest[rb]);
            } else if a == p {
                assert(o[b] == rest[rb]);
            } else {
                assert(o[a] == rest[ra]);
            }
        }
    }
}

/// Whether the positions `o` are ordered by `ranks`: ranks never fall along
/// them, and positions of equal rank come in increasing order.
pub open spec fn sorted_by_rank(ranks: Seq<int>, o: Seq<int>) -> bool {
    forall|a: int, b: int|
        #![trigger o[a], o[b]]
        0 <= a < b < o.len() ==> ranks[o[a]] <= ranks[o[b]] && (ranks[o[a]] == ranks[o[b]]
            ==> o[a] < o[b])
}

/// Proof that ordering by rank sorts, stably.
pub proof fn lemma_rank_order_sorted(ranks: Seq<int>, n: nat)
    requires
        n <= ranks.len(),
    ensures
        sorted_by_rank(ranks, stable_order(rank_before(ranks), n)),
    decreases n,
{
    if n > 0 {
        let b = rank_before(ranks);
        let rest = stable_order(b, (n - 1) as nat);
        lemma_rank_order_sorted(ranks, (n - 1) as nat);
        lemma_stable_order_bounds(b, (n - 1) as nat);
        lemma_place(rest, b, n - 1);
        let p = place(rest, b, n - 1) as int;
        let o = stable_order(b, n);
        assert(o == rest.insert(p, n - 1));
        let x = n - 1;
        lemma_stable_order_bounds(b, n);
        assert forall|i: int, j: int|
            #![trigger o[i], o[j]]
            0 <= i < j < o.len() implies ranks[o[i]] <= ranks[o[j]] && (ranks[o[i]]
            == ranks[o[j]] ==> o[i] < o[j]) by {
            if i != p && j != p {
                let ri = if i < p { i } else { i - 1 };
                let rj = if j < p { j } else { j - 1 };
                assert(o[i] == rest[ri]);
                assert(o[j] == rest[rj]);
            } else if i == p {
                let rj = j - 1;
                assert(o[j] == rest[rj]);
                assert(o[i] == x);
                assert(b(x, rest[rj]));
            } else {
                assert(o[j] == x);
                assert(o[i] == rest[i]);
                assert(!b(x, rest[p - 1]));
                if i < p - 1 {
                    assert(ranks[rest[i]] <= ranks[rest[p - 1]]);
                }
            }
        }
    }
}

/// Ordering by rank: a smaller rank comes first.
pub open spec fn rank_before(ranks: Seq<int>) -> spec_fn(int, int) -> bool {
    |i: int, j: int| ranks[i] < ranks[j]
}

/// The positions of `ranks` in the order of their ranks, equal ranks in their
/// first order.
fn rank_positions(ranks: &Vec<u32>) -> (order: Vec<usize>)
    ensures
        order@.len() == ranks@.len(),
        forall|k: int| 0 <= k < order@.len() ==> #[trigger] order@[k] < ranks@.len(),
        forall|k: int|
            0 <= k < order@.len() ==> #[trigger] order@[k] as int == stable_order(
                rank_before(ranks@.map_values(|r: u32| r as int)),
                ranks@.len(),
            )[k],
{
    let ghost b = rank_before(ranks@.map_values(|r: u32| r as int));
    let mut order: Vec<usize> = Vec::new();
    let mut i: usize = 0;
    while i < ranks.len()
        invariant
            i <= ranks.len(),
            b == rank_before(ranks@.map_values(|r: u32| r as int)),
            order@.len() == i,
            forall|k: int| 0 <= k < order@.len() ==> #[trigger] order@[k] < i,
            order@.map_values(|x: usize| x as int) == stable_order(b, i as nat),
        decreases ranks.len() - i,
    {
        let ghost before = order@.map_values(|x: usize| x as int);
        let mut j = order.len();
        proof {
            assert(before.take(j as int) == before);
        }
        while j > 0 && ranks[i] < ranks[order[j - 1]]
            invariant
                j <= order@.len(),
                i < ranks@.len(),
                b == rank_before(ranks@.map_values(|r: u32| r as int)),
                forall|k: int| 0 <= k < order@.len() ==> #[trigger] order@[k] < i,
                before == order@.map_values(|x: usize| x as int),
                place(before, b, i as int) == place(before.take(j as int), b, i as int),
            decreases j,
        {
            proof {
                assert(before.take(j as int).last() == order@[j - 1] as int);
                assert(before.take(j as int).drop_last() == before.take(j - 1));
            }
            j = j - 1;
        }
        proof {
            if j > 0 {
                assert(before.take(j as int).last() == order@[j - 1] as int);
                assert(!b(i as int, before.take(j as int).last()));
            }
            assert(place(before.take(j as int), b, i as int) == j);
        }
        order.insert(j, i);
        proof {
            assert(order@.map_values(|x: usize| x as int) =~= before.insert(j as int, i as int));
        }
        i = i + 1;
    }
    proof {
        assert forall|k: int| 0 <= k < order@.len() implies #[trigger] order@[k] as int
            == stable_order(b, ranks@.len())[k] by {
            assert(order@.map_values(|x: usize| x as int)[k] == order@[k] as int);
        }
    }
    order
}

// ---------------------------------------------------------------------------
// Detail popups
// ---------------------------------------------------------------------------

/// Whether a field's value is shown as a date: its name speaks of a time and
/// the value starts like `YYYY-MM-DD`.
pub open spec fn shown_as_date(key: Seq<char>, value: Seq<char>) -> bool {
    timestamp_key_text(lowercase(key)) && is_timestamp_shape(encode_utf8(value))
}

/// Whether a value shown as a date cannot be cut where the date's parts lie
/// (a character other than ASCII straddles a cut), which the viewer does not
/// survive.
pub open spec fn detail_fails(key: Seq<char>, value: Seq<char>) -> bool {
    shown_as_date(key, value) && !timestamp_cuts_ok(encode_utf8(value))
}

/// Whether `t` is how a field's value is shown: as `DD.MM.YYYY hh:mm` when it is
/// shown as a date, else as it is.
pub open spec fn detail_shows(key: Seq<char>, value: Seq<char>, t: Seq<char>) -> bool {
    if shown_as_date(key, value) {
        encode_utf8(t) == timestamp_display(encode_utf8(value))
    } else {
        t == value
    }
}

/// How a field's value is shown in a detail table; `None` where the value
/// cannot be shown (see `detail_fails`).
pub fn detail_value(key: &str, value: &str) -> (r: Option<String>)
    ensures
        r is None <==> detail_fails(key@, value@),
        r matches Some(t) ==> detail_shows(key@, value@, t@),
{
    if !is_timestamp_key(key) {
        return Some(owned(value));
    }
    let b = value.as_bytes();
    if !(b.len() >= 16 && b[4] == 0x2D && b[7] == 0x2D) {
        return Some(owned(value));
    }
    let has_time = b[10] == 0x54 || b[10] == 0x20;
    let cuts = value.is_char_boundary(4) && value.is_char_boundary(5) && value.is_char_boundary(
        7,
    ) && value.is_char_boundary(8) && value.is_char_boundary(10) && (!has_time || (
    value.is_char_boundary(11) && value.is_char_boundary(16)));
    if !cuts {
        return None;
    }
    fmt_timestamp(value)
}

/// The ranks of field names in a detail table.
fn detail_ranks(entries: &Vec<(String, String)>) -> (ranks: Vec<u32>)
    requires
        forall|i: int|
            0 <= i < entries@.len() ==> key_rank_fits(#[trigger] entries@[i].0@),
    ensures
        ranks@.len() == entries@.len(),
        forall|i: int| 0 <= i < entries@.len() ==> #[trigger] ranks@[i] == key_order(entries@[i].0@),
{
    let mut ranks: Vec<u32> = Vec::new();
    let mut i: usize = 0;
    while i < entries.len()
        invariant
            i <= entries.len(),
            forall|k: int| 0 <= k < entries@.len() ==> key_rank_fits(#[trigger] entries@[k].0@),
            ranks@.len() == i,
            forall|k: int| 0 <= k < i ==> #[trigger] ranks@[k] == key_order(entries@[k].0@),
        decreases entries.len() - i,
    {
        assert(key_rank_fits(entries@[i as int].0@));
        ranks.push(match_key_order(entries[i].0.as_str()));
        i = i + 1;
    }
    ranks
}

/// The order in which a detail table lists the fields `entries`: by the rank
/// of their names, fields of equal rank in their first order.
pub open spec fn detail_order(entries: Seq<(String, String)>) -> Seq<int> {
    stable_order(
        rank_before(entries.map_values(|e: (String, String)| key_order(e.0@))),
        entries.len(),
    )
}

/// The detail table shows each field of its entries exactly once, ordered by
/// rank (see `key_order`: the known fields first, in their usual order), fields
/// of equal rank in the order they came.
pub proof fn lemma_detail_table(entries: Seq<(String, String)>)
    ensures
        detail_order(entries).len() == entries.len(),
        forall|k: int|
            #![trigger detail_order(entries)[k]]
            0 <= k < entries.len() ==> 0 <= detail_order(entries)[k] < entries.len(),
        forall|a: int, b: int|
            #![trigger detail_order(entries)[a], detail_order(entries)[b]]
            0 <= a < b < entries.len() ==> detail_order(entries)[a] != detail_order(entries)[b],
        sorted_by_rank(
            entries.map_values(|e: (String, String)| key_order(e.0@)),
            detail_order(entries),
        ),
{
    let ranks = entries.map_values(|e: (String, String)| key_order(e.0@));
    lemma_stable_order_bounds(rank_before(ranks), entries.len());
    lemma_stable_order_distinct(rank_before(ranks), entries.len());
    lemma_rank_order_sorted(ranks, entries.len());
}

/// The rows of a detail table (the details of a match, or of a map with each
/// value already written out): each field's name and shown value, known fields
/// first in their usual order, the others after them. `None` where a value
/// cannot be shown (see `detail_fails`).
pub fn detail_rows(entries: &Vec<(String, String)>) -> (r: Option<Vec<(String, String)>>)
    requires
        forall|i: int|
            0 <= i < entries@.len() ==> key_rank_fits(#[trigger] entries@[i].0@),
    ensures
        r is None <==> exists|i: int|
            0 <= i < entries@.len() && detail_fails(
                #[trigger] entries@[i].0@,
                entries@[i].1@,
            ),
        r matches Some(rows) ==> {
            &&& rows@.len() == entries@.len()
            &&& forall|k: int|
                0 <= k < rows@.len() ==> {
                    let e = entries@[detail_order(entries@)[k]];
                    &&& (#[trigger] rows@[k]).0@ == e.0@
                    &&& detail_shows(e.0@, e.1@, rows@[k].1@)
                }
        },
{
    let ranks = detail_ranks(entries);
    let ghost rs = entries@.map_values(|e: (String, String)| key_order(e.0@));
    assert(ranks@.map_values(|r: u32| r as int) =~= rs);
    let order = rank_positions(&ranks);
    proof {
        lemma_stable_order_bounds(rank_before(rs), entries@.len());
        assert forall|i: int|
            #![trigger entries@[i]]
            0 <= i < entries@.len() implies exists|m: int|
                0 <= m < order@.len() && order@[m] == i by {
            lemma_stable_order_complete(rank_before(rs), entries@.len(), i);
            let m = choose|m: int|
                0 <= m < entries@.len() && #[trigger] stable_order(rank_before(rs), entries@.len())[m]
                    == i;
            assert(order@[m] as int == detail_order(entries@)[m]);
        }
    }
    let mut rows: Vec<(String, String)> = Vec::new();
    let mut k: usize = 0;
    while k < order.len()
        invariant
            k <= order@.len(),
            order@.len() == entries@.len(),
            forall|m: int| 0 <= m < order@.len() ==> #[trigger] order@[m] < entries@.len(),
            forall|m: int|
                0 <= m < order@.len() ==> #[trigger] order@[m] as int == detail_order(entries@)[m],
            forall|i: int|
                0 <= i < entries@.len() ==> !detail_fails(
                    #[trigger] entries@[i].0@,
                    entries@[i].1@,
                ) || exists|m: int| k <= m < order@.len() && order@[m] == i,
            rows@.len() == k,
            forall|m: int|
                0 <= m < k ==> {
                    let e = entries@[detail_order(entries@)[m]];
                    &&& (#[trigger] rows@[m]).0@ == e.0@
                    &&& detail_shows(e.0@, e.1@, rows@[m].1@)
                },
        decreases order.len() - k,
    {
        let at = order[k];
        match detail_value(entries[at].0.as_str(), entries[at].1.as_str()) {
            Some(t) => {
                rows.push((entries[at].0.clone(), t));
            },
            None => {
                return None;
            },
        }
        k = k + 1;
    }
    Some(rows)
}

// ---------------------------------------------------------------------------
// Lifetime table and player card
// ---------------------------------------------------------------------------

/// Ordering by name, in the order of the characters' code points.
pub open spec fn name_before(names: Seq<Seq<char>>) -> spec_fn(int, int) -> bool {
    |i: int, j: int| text_lt(names[i], names[j])
}

/// The names of the statistics.
pub open spec fn stat_names(entries: Seq<StatEntry>) -> Seq<Seq<char>> {
    entries.map_values(|e: StatEntry| e.0@)
}

/// The positions of `names` in the order of the names, equal names in their
/// first order.
fn name_positions(names: &Vec<Vec<char>>) -> (order: Vec<usize>)
    ensures
        order@.len() == names@.len(),
        forall|k: int| 0 <= k < order@.len() ==> #[trigger] order@[k] < names@.len(),
        forall|k: int|
            0 <= k < order@.len() ==> #[trigger] order@[k] as int == stable_order(
                name_before(names@.map_values(|v: Vec<char>| v@)),
                names@.len(),
            )[k],
{
    let ghost b = name_before(names@.map_values(|v: Vec<char>| v@));
    let mut order: Vec<usize> = Vec::new();
    let mut i: usize = 0;
    while i < names.len()
        invariant
            i <= names.len(),
            b == name_before(names@.map_values(|v: Vec<char>| v@)),
            order@.len() == i,
            forall|k: int| 0 <= k < order@.len() ==> #[trigger] order@[k] < i,
            order@.map_values(|x: usize| x as int) == stable_order(b, i as nat),
        decreases names.len() - i,
    {
        let ghost before = order@.map_values(|x: usize| x as int);
        let mut j = order.len();
        proof {
            assert(before.take(j as int) == before);
        }
        while j > 0 && text_before(&names[i], &names[order[j - 1]])
            invariant
                j <= order@.len(),
                i < names@.len(),
                b == name_before(names@.map_values(|v: Vec<char>| v@)),
                forall|k: int| 0 <= k < order@.len() ==> #[trigger] order@[k] < i,
                before == order@.map_values(|x: usize| x as int),
                place(before, b, i as int) == place(before.take(j as int), b, i as int),
            decreases j,
        {
            proof {
                assert(before.take(j as int).last() == order@[j - 1] as int);
                assert(before.take(j as int).drop_last() == before.take(j - 1));
            }
            j = j - 1;
        }
        proof {
            if j > 0 {
                assert(before.take(j as int).last() == order@[j - 1] as int);
                assert(!b(i as int, before.take(j as int).last()));
            }
            assert(place(before.take(j as int), b, i as int) == j);
        }
        order.insert(j, i);
        proof {
            assert(order@.map_values(|x: usize| x as int) =~= before.insert(j as int, i as int));
        }
        i = i + 1;
    }
    proof {
        assert forall|k: int| 0 <= k < order@.len() implies #[trigger] order@[k] as int
            == stable_order(b, names@.len())[k] by {
            assert(order@.map_values(|x: usize| x as int)[k] == order@[k] as int);
        }
    }
    order
}

/// Proof that no text comes before itself.
proof fn lemma_text_lt_irreflexive(a: Seq<char>)
    ensures
        !text_lt(a, a),
    decreases a.len(),
{
    if a.len() > 0 {
        lemma_text_lt_irreflexive(a.drop_first());
    }
}

/// Proof that the order of texts is transitive.
proof fn lemma_text_lt_transitive(a: Seq<char>, b: Seq<char>, c: Seq<char>)
    requires
        text_lt(a, b),
        text_lt(b, c),
    ensures
        text_lt(a, c),
    decreases a.len(),
{
    if a.len() > 0 && a[0] == b[0] && b[0] == c[0] {
        lemma_text_lt_transitive(a.drop_first(), b.drop_first(), c.drop_first());
    }
}

/// Proof that of two different texts one comes before the other, and never
/// both.
proof fn lemma_text_lt_total(a: Seq<char>, b: Seq<char>)
    ensures
        a != b ==> text_lt(a, b) || text_lt(b, a),
        !(text_lt(a, b) && text_lt(b, a)),
    decreases a.len(),
{
    if a.len() > 0 && b.len() > 0 && a[0] == b[0] {
        lemma_text_lt_total(a.drop_first(), b.drop_first());
        if a.drop_first() == b.drop_first() {
            assert forall|i: int| 0 <= i < a.len() implies a[i] == b[i] by {
                if i > 0 {
                    assert(a[i] == a.drop_first()[i - 1]);
                    assert(b[i] == b.drop_first()[i - 1]);
                }
            }
            assert(a =~= b);
        }
    } else if a.len() == 0 && b.len() == 0 {
        assert(a =~= b);
    } else if a.len() > 0 && b.len() > 0 {
        if (a[0] as u32) == (b[0] as u32) {
            vstd::utf8::char_u32_cast(a[0], a[0] as u32);
            vstd::utf8::char_u32_cast(b[0], b[0] as u32);
        }
    }
}

/// Whether the positions `o` are ordered by `names`: no name comes before an
/// earlier one, and positions of equal name come in increasing order.
pub open spec fn sorted_by_name(names: Seq<Seq<char>>, o: Seq<int>) -> bool {
    forall|a: int, b: int|
        #![trigger o[a], o[b]]
        0 <= a < b < o.len() ==> !text_lt(names[o[b]], names[o[a]]) && (names[o[a]]
            == names[o[b]] ==> o[a] < o[b])
}

/// Proof that ordering by name sorts, stably.
pub proof fn lemma_name_order_sorted(names: Seq<Seq<char>>, n: nat)
    requires
        n <= names.len(),
    ensures
        sorted_by_name(names, stable_order(name_before(names), n)),
    decreases n,
{
    if n > 0 {
        let b = name_before(names);
        let rest = stable_order(b, (n - 1) as nat);
        lemma_name_order_sorted(names, (n - 1) as nat);
        lemma_stable_order_bounds(b, (n - 1) as nat);
        lemma_stable_order_bounds(b, n);
        lemma_place(rest, b, n - 1);
        let p = place(rest, b, n - 1) as int;
        let o = stable_order(b, n);
        assert(o == rest.insert(p, n - 1));
        let x = n - 1;
        assert forall|i: int, j: int|
            #![trigger o[i], o[j]]
            0 <= i < j < o.len() implies !text_lt(names[o[j]], names[o[i]]) && (names[o[i]]
            == names[o[j]] ==> o[i] < o[j]) by {
            if i != p && j != p {
                let ri = if i < p { i } else { i - 1 };
                let rj = if j < p { j } else { j - 1 };
                assert(o[i] == rest[ri]);
                assert(o[j] == rest[rj]);
            } else if i == p {
                let rj = j - 1;
                assert(o[j] == rest[rj]);
                assert(o[i] == x);
                assert(b(x, rest[rj]));
                lemma_text_lt_total(names[x], names[rest[rj]]);
                lemma_text_lt_irreflexive(names[x]);
            } else {
                assert(o[j] == x);
                assert(o[i] == rest[i]);
                assert(!b(x, rest[p - 1]));
                let y = names[rest[p - 1]];
                let z = names[rest[i]];
                lemma_text_lt_total(names[x], y);
                if i < p - 1 {
                    assert(!text_lt(y, z));
                    if text_lt(names[x], z) {
                        if names[x] != y {
                            lemma_text_lt_transitive(y, names[x], z);
                        }
                    }
                }
            }
        }
    }
}

/// Win (`true`) for each result `"1"`, loss for any other.
pub open spec fn form_wins(results: Seq<Option<String>>) -> Seq<bool> {
    results.map_values(|r: Option<String>| r matches Some(t) && t@ == "1"@)
}

/// Wins and losses of the results.
fn wins_of(results: &Vec<Option<String>>, count: usize) -> (w: Vec<bool>)
    requires
        count <= results@.len(),
    ensures
        w@ == form_wins(results@.take(count as int)),
{
    let mut w: Vec<bool> = Vec::new();
    let mut i: usize = 0;
    while i < count
        invariant
            i <= count <= results@.len(),
            w@ == form_wins(results@.take(i as int)),
        decreases count - i,
    {
        let win = match &results[i] {
            Some(t) => same_text(t.as_str(), "1"),
            None => false,
        };
        w.push(win);
        assert(form_wins(results@.take(i + 1)) =~= form_wins(results@.take(i as int)).push(win));
        i = i + 1;
    }
    w
}

/// The value column of a lifetime statistic.
pub enum StatCell {
    /// Recent results as wins and losses.
    Form(Vec<bool>),
    Text(String),
}

/// A row of the lifetime table.
pub struct StatRow {
    pub name: String,
    pub cell: StatCell,
}

/// Whether a statistic cannot be shown: a value shown as a date that cannot be
/// cut (see `detail_fails`).
pub open spec fn stat_fails(e: StatEntry, shown: Seq<char>) -> bool {
    e.0@ != "Recent Results"@ && detail_fails(e.0@, shown)
}

/// Whether `c` shows the statistic `e` whose value is written `shown`: the
/// recent results as wins and losses when they are a list, other statistics as
/// in a detail table, dates included.
pub open spec fn stat_cell_shows(e: StatEntry, shown: Seq<char>, c: StatCell) -> bool {
    if e.0@ == "Recent Results"@ {
        match e.1 {
            StatValue::List(items, _) => c matches StatCell::Form(w) && w@ == form_wins(items@),
            _ => c matches StatCell::Text(t) && t@ == shown,
        }
    } else {
        c matches StatCell::Text(t) && detail_shows(e.0@, shown, t@)
    }
}

/// The rows of the lifetime table for the statistics `entries`, whose values
/// are written `shown` (one text per statistic): ordered by name. `None` where a
/// value cannot be shown (see `stat_fails`).
pub fn lifetime_rows(entries: &Vec<StatEntry>, shown: &Vec<String>) -> (r: Option<Vec<StatRow>>)
    requires
        shown@.len() == entries@.len(),
    ensures
        r is None <==> exists|i: int|
            0 <= i < entries@.len() && stat_fails(#[trigger] entries@[i], shown@[i]@),
        r matches Some(rows) ==> {
            &&& rows@.len() == entries@.len()
            &&& forall|k: int|
                0 <= k < rows@.len() ==> {
                    let i = stable_order(name_before(stat_names(entries@)), entries@.len())[k];
                    &&& (#[trigger] rows@[k]).name@ == entries@[i].0@
                    &&& stat_cell_shows(entries@[i], shown@[i]@, rows@[k].cell)
                }
        },
{
    let mut names: Vec<Vec<char>> = Vec::new();
    let mut n: usize = 0;
    while n < entries.len()
        invariant
            n <= entries.len(),
            names@.len() == n,
            forall|k: int| 0 <= k < n ==> (#[trigger] names@[k])@ == entries@[k].0@,
        decreases entries.len() - n,
    {
        names.push(chars_of(entries[n].0.as_str()));
        n = n + 1;
    }
    let ghost b = name_before(stat_names(entries@));
    assert(names@.map_values(|v: Vec<char>| v@) =~= stat_names(entries@));
    let order = name_positions(&names);
    proof {
        lemma_stable_order_bounds(b, entries@.len());
        assert forall|i: int|
            #![trigger entries@[i]]
            0 <= i < entries@.len() implies exists|m: int|
                0 <= m < order@.len() && order@[m] == i by {
            lemma_stable_order_complete(b, entries@.len(), i);
            let m = choose|m: int|
                0 <= m < entries@.len() && #[trigger] stable_order(b, entries@.len())[m] == i;
            assert(order@[m] as int == stable_order(b, entries@.len())[m]);
        }
    }
    let mut rows: Vec<StatRow> = Vec::new();
    let mut k: usize = 0;
    while k < order.len()
        invariant
            k <= order@.len(),
            order@.len() == entries@.len(),
            shown@.len() == entries@.len(),
            b == name_before(stat_names(entries@)),
            forall|m: int| 0 <= m < order@.len() ==> #[trigger] order@[m] < entries@.len(),
            forall|m: int|
                0 <= m < order@.len() ==> #[trigger] order@[m] as int == stable_order(
                    b,
                    entries@.len(),
                )[m],
            forall|i: int|
                0 <= i < entries@.len() ==> !stat_fails(#[trigger] entries@[i], shown@[i]@)
                    || exists|m: int| k <= m < order@.len() && order@[m] == i,
            rows@.len() == k,
            forall|m: int|
                0 <= m < k ==> {
                    let i = stable_order(b, entries@.len())[m];
                    &&& (#[trigger] rows@[m]).name@ == entries@[i].0@
                    &&& stat_cell_shows(entries@[i], shown@[i]@, rows@[m].cell)
                },
        decreases order.len() - k,
    {
        let at = order[k];
        let e = &entries[at];
        let cell = if same_text(e.0.as_str(), "Recent Results") {
            match &e.1 {
                StatValue::List(items, _) => StatCell::Form(wins_of(items, items.len())),
                _ => StatCell::Text(shown[at].clone()),
            }
        } else {
            match detail_value(e.0.as_str(), shown[at].as_str()) {
                Some(t) => StatCell::Text(t),
                None => {
                    return None;
                },
            }
        };
        proof {
            match &e.1 {
                StatValue::List(items, _) => {
                    assert(items@.take(items@.len() as int) == items@);
                },
                _ => {},
            }
        }
        rows.push(StatRow { name: e.0.clone(), cell });
        k = k + 1;
    }
    Some(rows)
}

/// The lifetime table shows each statistic exactly once, ordered by name,
/// statistics of equal name in the order they came.
pub proof fn lemma_lifetime_table(entries: Seq<StatEntry>)
    ensures
        ({
            let o = stable_order(name_before(stat_names(entries)), entries.len());
            &&& o.len() == entries.len()
            &&& forall|k: int| #![trigger o[k]] 0 <= k < entries.len() ==> 0 <= o[k] < entries.len()
            &&& forall|a: int, b: int|
                #![trigger o[a], o[b]]
                0 <= a < b < entries.len() ==> o[a] != o[b]
            &&& sorted_by_name(stat_names(entries), o)
        }),
{
    let names = stat_names(entries);
    lemma_stable_order_bounds(name_before(names), entries.len());
    lemma_stable_order_distinct(name_before(names), entries.len());
    lemma_name_order_sorted(names, entries.len());
}

/// The number of recent results the player card shows.
pub const CARD_FORM: usize = 15;

/// The form bar of the player card: wins and losses of the first 15 recent
/// results, when the statistics list them.
pub open spec fn card_form_spec(entries: Seq<StatEntry>) -> Option<Seq<bool>> {
    match entry_value(entries, "Recent Results"@) {
        Some(StatValue::List(items, _)) => Some(
            form_wins(
                if items@.len() > CARD_FORM {
                    items@.take(CARD_FORM as int)
                } else {
                    items@
                },
            ),
        ),
        _ => None,
    }
}

/// The form bar of the player card.
pub fn card_form(entries: &Vec<StatEntry>) -> (r: Option<Vec<bool>>)
    ensures
        r matches Some(w) ==> card_form_spec(entries@) == Some(w@),
        r is None ==> card_form_spec(entries@) is None,
{
    match lookup(entries, "Recent Results") {
        Some(StatValue::List(items, _)) => {
            let count = if items.len() > CARD_FORM {
                CARD_FORM
            } else {
                items.len()
            };
            proof {
                assert(items@.take(items@.len() as int) == items@);
            }
            Some(wins_of(items, count))
        },
        _ => None,
    }
}

/// A statistic of the player card: its label and the value as shown, when
/// that is not empty.
pub open spec fn labelled(label: Seq<char>, value: Seq<char>) -> Option<Seq<char>> {
    if value.len() > 0 {
        Some(label + value)
    } else {
        None
    }
}

/// The decimal form of a 32-bit number (`i32::to_string`).
pub fn i32_text(n: i32) -> (s: String)
    ensures
        s@ == decimal(n as int),
{
    if n < 0 {
        let m: u64 = (0i64 - (n as i64)) as u64;
        let digits = u64_text(m);
        proof {
            reveal_strlit("-");
            assert("-"@ == seq!['-']);
        }
        join2("-", digits.as_str())
    } else {
        u64_text(n as u64)
    }
}

/// The first line of the player card: the nickname, then the skill level
/// after `Rank`, the ELO after `ELO` and the country in capitals, each only
/// when the profile has it.
pub struct CardHeader {
    pub nickname: String,
    pub rank: Option<String>,
    pub elo: Option<String>,
    pub country: Option<String>,
}

/// The player's CS2 record, if the profile has one.
pub open spec fn cs2_of(p: PlayerProfile) -> Option<Cs2Info> {
    match p.games {
        Some(g) => g.cs2,
        None => None,
    }
}

/// The decimal text of a number the profile may have.
pub open spec fn number_text(n: Option<i32>) -> Option<Seq<char>> {
    match n {
        Some(v) => Some(decimal(v as int)),
        None => None,
    }
}

/// The first line of the player card for a profile.
pub fn card_header(p: &PlayerProfile) -> (h: CardHeader)
    ensures
        h.nickname@ == p.nickname@,
        opt_text(h.rank) == number_text(
            match cs2_of(*p) {
                Some(c) => c.skill_level,
                None => None,
            },
        ),
        opt_text(h.elo) == number_text(
            match cs2_of(*p) {
                Some(c) => c.faceit_elo,
                None => None,
            },
        ),
        opt_text(h.country) == match p.country {
            Some(c) => Some(uppercase(c@)),
            None => None,
        },
{
    let (level, elo) = match p.cs2() {
        Some(c) => (c.skill_level, c.faceit_elo),
        None => (None, None),
    };
    let rank = match level {
        Some(v) => Some(i32_text(v)),
        None => None,
    };
    let elo = match elo {
        Some(v) => Some(i32_text(v)),
        None => None,
    };
    let country = match &p.country {
        Some(c) => Some(to_uppercase(c.as_str())),
        None => None,
    };
    CardHeader { nickname: p.nickname.clone(), rank, elo, country }
}

/// The statistics line of the player card.
pub struct CardStats {
    pub matches: Option<String>,
    pub win_rate: Option<String>,
    pub kd: Option<String>,
    pub headshots: Option<String>,
}

fn labelled_text(label: &str, value: &str) -> (r: Option<String>)
    ensures
        opt_text(r) == labelled(label@, value@),
{
    if value.is_empty() {
        None
    } else {
        Some(join2(label, value))
    }
}

/// The statistics line of the player card: `M:`, `WR:`, `K/D:` and `HS:` with
/// the matches, win rate, kill/death ratio and headshot share as shown, each
/// one only when it is not empty.
pub fn card_stats(matches: &str, win_rate: &str, kd: &str, headshots: &str) -> (r: CardStats)
    ensures
        opt_text(r.matches) == labelled("M:"@, matches@),
        opt_text(r.win_rate) == labelled("WR:"@, win_rate@),
        opt_text(r.kd) == labelled("K/D:"@, kd@),
        opt_text(r.headshots) == labelled("HS:"@, headshots@),
{
    CardStats {
        matches: labelled_text("M:", matches),
        win_rate: labelled_text("WR:", win_rate),
        kd: labelled_text("K/D:", kd),
        headshots: labelled_text("HS:", headshots),
    }
}

// ---------------------------------------------------------------------------
// Tabs, titles and hints
// ---------------------------------------------------------------------------

/// The number of lifetime statistics, matches and segments (all of them, not
/// only the maps) that the tab titles count.
pub open spec fn tab_counts(
    stats: Option<PlayerLifetimeStats>,
    history: Option<Vec<MatchItem>>,
) -> (nat, nat, nat) {
    let lifetime = match stats {
        Some(s) => match s.lifetime {
            Some(m) => m@.len(),
            None => 0,
        },
        None => 0,
    };
    let matches = match history {
        Some(h) => h@.len(),
        None => 0,
    };
    let segments = match stats {
        Some(s) => match s.segments {
            Some(v) => v@.len(),
            None => 0,
        },
        None => 0,
    };
    (lifetime, matches, segments)
}

/// The titles of the three tabs, each with its count.
pub fn tab_titles(stats: &Option<PlayerLifetimeStats>, history: &Option<Vec<MatchItem>>) -> (r: Vec<
    String,
>)
    ensures
        r@.len() == 3,
        r@[0]@ == " Lifetime ("@ + decimal(tab_counts(*stats, *history).0 as int) + ") "@,
        r@[1]@ == " Matches ("@ + decimal(tab_counts(*stats, *history).1 as int) + ") "@,
        r@[2]@ == " Maps ("@ + decimal(tab_counts(*stats, *history).2 as int) + ") "@,
{
    let lifetime: usize = match stats {
        Some(s) => match &s.lifetime {
            Some(m) => m.len(),
            None => 0,
        },
        None => 0,
    };
    let matches: usize = match history {
        Some(h) => h.len(),
        None => 0,
    };
    let segments: usize = match stats {
        Some(s) => match &s.segments {
            Some(v) => v.len(),
            None => 0,
        },
        None => 0,
    };
    let a = usize_text(lifetime);
    let b = usize_text(matches);
    let c = usize_text(segments);
    let mut r: Vec<String> = Vec::new();
    r.push(join3(" Lifetime (", a.as_str(), ") "));
    r.push(join3(" Matches (", b.as_str(), ") "));
    r.push(join3(" Maps (", c.as_str(), ") "));
    r
}

/// The title of the match list: with the page number (counted from 1) once a
/// history is loaded.
pub fn matches_title(app: &App) -> (r: String)
    requires
        app.current_page < usize::MAX,
    ensures
        r@ == if app.match_history is Some {
            " Matches (p."@ + decimal(app.current_page + 1) + ") "@
        } else {
            " Matches "@
        },
{
    if app.match_history.is_some() {
        let page = usize_text(app.current_page + 1);
        join3(" Matches (p.", page.as_str(), ") ")
    } else {
        owned(" Matches ")
    }
}

/// A key hint: the key and what it does.
pub type Hint = (&'static str, &'static str);

/// The key hints of the footer.
pub open spec fn footer_spec(
    mode: InputMode,
    idle: bool,
    matches_tab: bool,
) -> Seq<(Seq<char>, Seq<char>)> {
    match mode {
        InputMode::Editing => seq![("Enter"@, " submit "@), ("Esc"@, " cancel"@)],
        InputMode::Normal => if idle {
            seq![("i"@, " edit "@), ("t"@, " themes "@), ("?"@, " help "@), ("q"@, " quit"@)]
        } else {
            let common = seq![
                ("Esc"@, " home "@),
                ("i"@, " edit "@),
                ("r"@, " refr "@),
                ("Tab"@, " tabs "@),
                ("a"@, " AI "@),
                ("e"@, " export "@),
                ("t"@, " themes "@),
                ("?"@, " help "@),
                ("q"@, " quit"@),
            ];
            if matches_tab {
                common + seq![("  n/p"@, " page "@), ("Ent"@, " detail"@)]
            } else {
                common
            }
        },
    }
}

/// The views of key hints.
pub open spec fn hint_texts(h: Seq<Hint>) -> Seq<(Seq<char>, Seq<char>)> {
    h.map_values(|x: Hint| (x.0@, x.1@))
}

/// The key hints of the footer: those of the search field while editing, else
/// those of the start screen or of a loaded player (with paging and details on
/// the match list once a history is loaded).
pub fn footer_hints(app: &App) -> (r: Vec<Hint>)
    ensures
        hint_texts(r@) == footer_spec(
            app.input_mode,
            app@.loading is Idle,
            app.selected_tab == 1 && app.match_history is Some,
        ),
{
    let mut r: Vec<Hint> = Vec::new();
    match app.input_mode {
        InputMode::Editing => {
            r.push(("Enter", " submit "));
            r.push(("Esc", " cancel"));
        },
        InputMode::Normal => {
            let idle = match app.loading_state {
                LoadingState::Idle => true,
                _ => false,
            };
            if idle {
                r.push(("i", " edit "));
                r.push(("t", " themes "));
                r.push(("?", " help "));
                r.push(("q", " quit"));
            } else {
                r.push(("Esc", " home "));
                r.push(("i", " edit "));
                r.push(("r", " refr "));
                r.push(("Tab", " tabs "));
                r.push(("a", " AI "));
                r.push(("e", " export "));
                r.push(("t", " themes "));
                r.push(("?", " help "));
                r.push(("q", " quit"));
                if app.selected_tab == 1 && app.match_history.is_some() {
                    r.push(("  n/p", " page "));
                    r.push(("Ent", " detail"));
                }
            }
        },
    }
    proof {
        let want = footer_spec(
            app.input_mode,
            app@.loading is Idle,
            app.selected_tab == 1 && app.match_history is Some,
        );
        assert(hint_texts(r@) =~= want);
    }
    r
}

// ---------------------------------------------------------------------------
// Search field
// ---------------------------------------------------------------------------

/// What the search field shows: a placeholder while it is being edited and
/// empty, else its text.
pub fn input_display(app: &App) -> (r: String)
    ensures
        r@ == if app.input_mode == InputMode::Editing && app.input@.len() == 0 {
            "nickname or player ID..."@
        } else {
            app.input@
        },
{
    if app.input_mode == InputMode::Editing && app.input.as_str().is_empty() {
        owned("nickname or player ID...")
    } else {
        app.input.clone()
    }
}

/// What the field of the AI key prompt shows: a placeholder while it is
/// empty, else the text typed.
pub fn ai_key_display(app: &App) -> (r: String)
    ensures
        r@ == if app.ai_key_input@.len() == 0 {
            "sk-..."@
        } else {
            app.ai_key_input@
        },
{
    if app.ai_key_input.as_str().is_empty() {
        owned("sk-...")
    } else {
        app.ai_key_input.clone()
    }
}

/// The note on the search history beside the field's title while editing:
/// which earlier search is shown (`[i / n]`, counted from 1) or how many there
/// are (`[n hist]`); none when not editing or when there is no history.
pub fn input_hint(app: &App) -> (r: Option<String>)
    requires
        app.history_index matches Some(i) ==> i < usize::MAX,
    ensures
        r is Some <==> app.input_mode == InputMode::Editing && app.search_history@.len() > 0,
        r matches Some(t) ==> t@ == match app.history_index {
            Some(i) => " ["@ + decimal(i + 1) + " / "@ + decimal(
                app.search_history@.len() as int,
            ) + "]"@,
            None => " ["@ + decimal(app.search_history@.len() as int) + " hist]"@,
        },
{
    if app.input_mode != InputMode::Editing || app.search_history.len() == 0 {
        return None;
    }
    let n = usize_text(app.search_history.len());
    match app.history_index {
        Some(i) => {
            let k = usize_text(i + 1);
            let mut t = join3(" [", k.as_str(), " / ");
            t.append(n.as_str());
            t.append("]");
            Some(t)
        },
        None => Some(join3(" [", n.as_str(), " hist]")),
    }
}

/// The number of characters of a text as a cell count: it wraps around at
/// 65536, as a conversion to `u16` does.
pub open spec fn cell_count(n: nat) -> nat {
    n % 0x1_0000
}

/// The cell of the text cursor in a search field drawn in `area`: after the
/// text, inside the border.
pub fn input_cursor(area: Rect, text: &str) -> (r: (u16, u16))
    requires
        area.x + cell_count(text@.len()) + 1 <= u16::MAX,
        area.y + 1 <= u16::MAX,
    ensures
        r.0 == area.x + cell_count(text@.len()) + 1,
        r.1 == area.y + 1,
{
    let chars = chars_of(text);
    let n: usize = chars.len();
    let cells: u16 = (n % 0x1_0000) as u16;
    (area.x + cells + 1, area.y + 1)
}

// ---------------------------------------------------------------------------
// Start screen
// ---------------------------------------------------------------------------

/// Where the start screen's banner starts, below the top of the middle area of
/// height `height`: banner, a blank line and the search field (three rows)
/// centred when they fit, else at the top.
pub fn welcome_top(height: u16, banner_rows: u16) -> (r: u16)
    requires
        banner_rows + 4 <= u16::MAX,
    ensures
        r == if banner_rows + 4 < height {
            (height - banner_rows - 4) / 2
        } else {
            0
        },
{
    let content = banner_rows + 4;
    if content < height {
        (height - content) / 2
    } else {
        0
    }
}

/// The search field of the start screen within the row `area`: at most 50
/// cells wide, centred.
pub fn welcome_input(area: Rect) -> (r: Rect)
    requires
        area.x + area.width <= u16::MAX,
    ensures
        r.width == if area.width < 50 {
            area.width
        } else {
            50
        },
        r.x == area.x + (area.width - r.width) / 2,
        r.y == area.y,
        r.height == area.height,
{
    let w: u16 = if area.width < 50 {
        area.width
    } else {
        50
    };
    Rect { x: area.x + (area.width - w) / 2, y: area.y, width: w, height: area.height }
}

// ---------------------------------------------------------------------------
// Toasts
// ---------------------------------------------------------------------------

/// The box of the toasts in the bottom right corner of `area`: two rows of
/// border and one row per toast (two at most), at most 38 cells wide and one
/// cell from the right edge.
pub open spec fn toast_box(area: Rect, count: nat) -> Rect {
    let h = (if count < 2 {
        count
    } else {
        2
    }) + 2;
    let w = if area.width >= 2 && area.width - 2 < 38 {
        area.width - 2
    } else if area.width < 2 {
        0
    } else {
        38
    };
    Rect {
        x: (area.x + area.width - w - 1) as u16,
        y: (area.y + if area.height >= h + 1 {
            area.height - h - 1
        } else {
            0
        }) as u16,
        width: w as u16,
        height: h as u16,
    }
}

/// Whether the toast box fits the terminal's coordinates.
pub open spec fn toast_box_fits(area: Rect) -> bool {
    let w = if area.width >= 2 && area.width - 2 < 38 {
        area.width - 2
    } else if area.width < 2 {
        0
    } else {
        38
    };
    &&& area.x + area.width <= u16::MAX
    &&& area.x + area.width >= w + 1
    &&& area.y + area.height <= u16::MAX
}

/// The box of the toasts (see `toast_box`).
pub fn toast_area(area: Rect, count: usize) -> (r: Rect)
    requires
        toast_box_fits(area),
    ensures
        r == toast_box(area, count as nat),
{
    let shown: u16 = if count < 2 {
        count as u16
    } else {
        2
    };
    let h: u16 = shown + 2;
    let room: u16 = if area.width >= 2 {
        area.width - 2
    } else {
        0
    };
    let w: u16 = if room < 38 {
        room
    } else {
        38
    };
    let below: u16 = if area.height >= h + 1 {
        area.height - (h + 1)
    } else {
        0
    };
    Rect { x: area.x + area.width - w - 1, y: area.y + below, width: w, height: h }
}

/// The toasts shown, newest first: the last two.
pub open spec fn shown_toasts(ts: Seq<Toast>) -> Seq<Toast> {
    if ts.len() <= 2 {
        ts.reverse()
    } else {
        ts.subrange(ts.len() - 2, ts.len() as int).reverse()
    }
}

/// The lines of the toast box: whether each shown toast is an error, and its
/// message, newest first.
pub fn toast_lines(toasts: &Vec<Toast>) -> (r: Vec<(bool, String)>)
    ensures
        r@.len() == shown_toasts(toasts@).len(),
        forall|k: int|
            0 <= k < r@.len() ==> (#[trigger] r@[k]).0 == shown_toasts(toasts@)[k].is_error
                && r@[k].1@ == shown_toasts(toasts@)[k].message@,
{
    let n = toasts.len();
    let count: usize = if n < 2 {
        n
    } else {
        2
    };
    let mut r: Vec<(bool, String)> = Vec::new();
    let mut k: usize = 0;
    while k < count
        invariant
            n == toasts@.len(),
            count == if n < 2 {
                n
            } else {
                2
            },
            k <= count,
            r@.len() == k,
            forall|m: int|
                0 <= m < k ==> (#[trigger] r@[m]).0 == toasts@[n - 1 - m].is_error && r@[m].1@
                    == toasts@[n - 1 - m].message@,
        decreases count - k,
    {
        let t = &toasts[n - 1 - k];
        r.push((t.is_error, t.message.clone()));
        k = k + 1;
    }
    proof {
        assert forall|m: int| 0 <= m < r@.len() implies #[trigger] shown_toasts(toasts@)[m]
            == toasts@[n - 1 - m] by {
            if n <= 2 {
                assert(shown_toasts(toasts@)[m] == toasts@.reverse()[m]);
            } else {
                assert(shown_toasts(toasts@)[m] == toasts@.subrange(n - 2, n as int).reverse()[m]);
            }
        }
    }
    r
}

// ---------------------------------------------------------------------------
// Themes and map details
// ---------------------------------------------------------------------------

/// The rows of the theme selector: each name, the current theme marked with
/// `✦`.
pub fn theme_rows(names: &Vec<String>, current: usize) -> (r: Vec<String>)
    ensures
        r@.len() == names@.len(),
        forall|k: int|
            0 <= k < r@.len() ==> (#[trigger] r@[k])@ == (if k == current {
                "\u{2726} "@
            } else {
                "  "@
            }) + names@[k]@,
{
    let mut r: Vec<String> = Vec::new();
    let mut k: usize = 0;
    while k < names.len()
        invariant
            k <= names@.len(),
            r@.len() == k,
            forall|m: int|
                0 <= m < k ==> (#[trigger] r@[m])@ == (if m == current {
                    "\u{2726} "@
                } else {
                    "  "@
                }) + names@[m]@,
        decreases names.len() - k,
    {
        let prefix = if k == current {
            "\u{2726} "
        } else {
            "  "
        };
        r.push(join2(prefix, names[k].as_str()));
        k = k + 1;
    }
    r
}

/// The map segment whose details the map popup shows for the selected `row` of
/// the map list, with the popup's title (` <label> Details `, `?` for a segment
/// without a label); none when there is no such row or the segment has no
/// statistics.
pub fn map_popup(segs: &Vec<LifetimeSegment>, row: usize) -> (r: Option<(usize, String)>)
    ensures
        r is Some <==> row < map_positions(segs@).len() && segs@[map_positions(
            segs@,
        )[row as int]].stats is Some,
        r matches Some(p) ==> {
            &&& p.0 as int == map_positions(segs@)[row as int]
            &&& p.1@ == " "@ + match segs@[p.0 as int].label {
                Some(l) => l@,
                None => "?"@,
            } + " Details "@
        },
{
    let rows = map_segment_positions(segs);
    proof {
        lemma_map_positions(segs@);
    }
    if row >= rows.len() {
        return None;
    }
    let at = rows[row];
    let seg = &segs[at];
    if seg.stats.is_none() {
        return None;
    }
    let label = match &seg.label {
        Some(l) => l.as_str(),
        None => "?",
    };
    Some((at, join3(" ", label, " Details ")))
}

// ---------------------------------------------------------------------------
// AI answer box
// ---------------------------------------------------------------------------

/// The characters per line inside the AI answer box on a terminal `width`
/// cells wide: the box takes 60% of the width, less borders and margins.
pub open spec fn box_line_width(width: u16) -> nat {
    let popup = (width * 60 / 100) as nat;
    let inner: nat = if popup >= 4 {
        (popup - 4) as nat
    } else {
        0
    };
    if inner >= 2 {
        (inner - 2) as nat
    } else {
        0
    }
}

/// The rows that the lines take when each line of `b` bytes is given
/// `(b + per) / per` rows (`per` taken as 1 when it is 0).
pub open spec fn wrapped_rows(ls: Seq<Seq<char>>, per: nat) -> nat
    decreases ls.len(),
{
    if ls.len() == 0 {
        0
    } else {
        wrapped_rows(ls.drop_last(), per) + (encode_utf8(ls.last()).len() + per) / (if per == 0 {
            1
        } else {
            per
        })
    }
}

/// The height of the answer's text in the box: its rows and two more, as a
/// `u16` (wrapping around at 65536).
pub open spec fn answer_height(width: u16, text: Seq<char>) -> nat {
    (wrapped_rows(lines(text), box_line_width(width)) + 2) % 0x1_0000
}

/// The rows the box needs: the text's height and four more, kept between 10
/// and the terminal's height less four.
pub open spec fn answer_box_rows(width: u16, height: u16, text: Seq<char>) -> nat {
    let want = answer_height(width, text) + 4;
    if want < 10 {
        10
    } else if want > height - 4 {
        (height - 4) as nat
    } else {
        want
    }
}

/// The height of the AI answer box in percent of the terminal's height: the
/// rows it needs, between 20% and 70%.
pub open spec fn answer_box_percent(width: u16, height: u16, text: Seq<char>) -> nat {
    let p = answer_box_rows(width, height, text) * 100 / (height as nat);
    if p < 20 {
        20
    } else if p > 70 {
        70
    } else {
        p
    }
}

/// Whether the box can be measured on this terminal without leaving the range
/// of the numbers involved: the width's share, the line lengths and their
/// rows, the box's height and its percentage all fit, and the terminal is at
/// least 14 rows high.
pub open spec fn answer_box_fits(width: u16, height: u16, text: Seq<char>) -> bool {
    &&& width * 60 <= u16::MAX
    &&& height >= 14
    &&& forall|k: int|
        0 <= k < lines(text).len() ==> encode_utf8(#[trigger] lines(text)[k]).len()
            + box_line_width(width) <= usize::MAX
    &&& wrapped_rows(lines(text), box_line_width(width)) + 2 <= usize::MAX
    &&& answer_height(width, text) + 4 <= u16::MAX
    &&& answer_box_rows(width, height, text) * 100 <= u16::MAX
}

/// Proof that the rows of some of the lines are no more than those of all.
proof fn lemma_wrapped_rows_prefix(ls: Seq<Seq<char>>, per: nat, j: int)
    requires
        0 <= j <= ls.len(),
    ensures
        wrapped_rows(ls.take(j), per) <= wrapped_rows(ls, per),
    decreases ls.len() - j,
{
    if j < ls.len() {
        lemma_wrapped_rows_prefix(ls, per, j + 1);
        assert(ls.take(j + 1).drop_last() == ls.take(j));
    } else {
        assert(ls.take(j) == ls);
    }
}

/// The number of bytes of the UTF-8 encoding of `v[from..to]`.
fn utf8_len(v: &Vec<char>, from: usize, to: usize) -> (n: usize)
    requires
        from <= to <= v.len(),
        encode_utf8(v@.subrange(from as int, to as int)).len() <= usize::MAX,
    ensures
        n == encode_utf8(v@.subrange(from as int, to as int)).len(),
{
    let mut total: usize = 0;
    let mut i = from;
    while i < to
        invariant
            from <= i <= to <= v.len(),
            encode_utf8(v@.subrange(from as int, to as int)).len() <= usize::MAX,
            total == encode_utf8(v@.subrange(from as int, i as int)).len(),
        decreases to - i,
    {
        let u = v[i] as u32;
        let w: usize = if u < 0x80 {
            1
        } else if u < 0x800 {
            2
        } else if u < 0x10000 {
            3
        } else {
            4
        };
        proof {
            assert(v@.subrange(from as int, i + 1) == v@.subrange(from as int, i as int).push(
                v@[i as int],
            ));
            lemma_encode_utf8_push_len(v@.subrange(from as int, i as int), v@[i as int]);
            assert(v@.subrange(from as int, i + 1) == v@.subrange(from as int, to as int).take(
                i + 1 - from,
            ));
            lemma_encode_utf8_monotone(
                v@.subrange(from as int, i + 1),
                v@.subrange(from as int, to as int),
            );
        }
        total = total + w;
        i = i + 1;
    }
    total
}

/// The height of the AI answer box in percent of the terminal's height (see
/// `answer_box_percent`) and the height of the answer's text in it (see
/// `answer_height`), for a terminal of `width` by `height` cells; `None` where
/// the box cannot be measured (see `answer_box_fits`).
pub fn answer_box_height(width: u16, height: u16, text: &str) -> (r: Option<(u16, u16)>)
    ensures
        r is None <==> !answer_box_fits(width, height, text@),
        r matches Some(p) ==> p.0 == answer_box_percent(width, height, text@) && p.1
            == answer_height(width, text@),
{
    if (width as u32) * 60 > 0xFFFF || height < 14 {
        return None;
    }
    let popup: u16 = width * 60 / 100;
    let inner: u16 = if popup >= 4 {
        popup - 4
    } else {
        0
    };
    let per_u16: u16 = if inner >= 2 {
        inner - 2
    } else {
        0
    };
    let per = per_u16 as usize;
    let ghost bw = box_line_width(width);
    assert(per == bw);
    let v = chars_of(text);
    let bounds = line_bounds(&v);
    let ghost ls = lines(text@);
    let divisor: usize = if per == 0 {
        1
    } else {
        per
    };
    let mut rows: usize = 0;
    let mut k: usize = 0;
    while k < bounds.len()
        invariant
            k <= bounds@.len(),
            bounds@.len() == ls.len(),
            ls == lines(v@),
            v@ == text@,
            per == bw,
            bw == box_line_width(width),
            divisor == if per == 0 {
                1
            } else {
                per
            },
            forall|m: int|
                #![trigger bounds@[m]]
                0 <= m < bounds@.len() ==> bounds@[m].0 <= bounds@[m].1 <= v@.len(),
            forall|m: int|
                0 <= m < bounds@.len() ==> v@.subrange(bounds@[m].0 as int, bounds@[m].1 as int)
                    == #[trigger] ls[m],
            forall|m: int| 0 <= m < k ==> encode_utf8(#[trigger] ls[m]).len() + bw <= usize::MAX,
            rows == wrapped_rows(ls.take(k as int), bw),
        decreases bounds.len() - k,
    {
        let (from, to) = bounds[k];
        assert(v@.subrange(from as int, to as int) == ls[k as int]);
        if utf8_len_exceeds(&v, from, to, usize::MAX - per) {
            return None;
        }
        let len = utf8_len(&v, from, to);
        proof {
            assert(ls.take(k + 1).drop_last() == ls.take(k as int));
            assert(ls.take(k + 1).last() == ls[k as int]);
            lemma_wrapped_rows_prefix(ls, bw, k + 1);
        }
        let step = (len + per) / divisor;
        if rows > usize::MAX - step {
            return None;
        }
        rows = rows + step;
        k = k + 1;
    }
    assert(ls.take(k as int) == ls);
    if rows > usize::MAX - 2 {
        return None;
    }
    let content: u16 = ((rows + 2) % 0x1_0000) as u16;
    if content > 0xFFFF - 4 {
        return None;
    }
    let want: u16 = content + 4;
    let top: u16 = height - 4;
    let needed: u16 = if want < 10 {
        10
    } else if want > top {
        top
    } else {
        want
    };
    if (needed as u32) * 100 > 0xFFFF {
        return None;
    }
    let p: u16 = needed * 100 / height;
    let percent: u16 = if p < 20 {
        20
    } else if p > 70 {
        70
    } else {
        p
    };
    Some((percent, content))
}

} // verus!
