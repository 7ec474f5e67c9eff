//! The plain-text summaries of a player that an AI analysis is asked with.

use vstd::prelude::*;

use crate::api::{
    entry_value, field_text, is_map_segment, lookup, match_field, segment_is_map, value_str,
    value_text, value_to_text, LifetimeSegment, MatchItem, PlayerLifetimeStats, StatEntry,
    StatValue,
};
use crate::text::{chars_of, owned, same_text};

verus! {

broadcast use vstd::string::group_string_axioms;

// ---------------------------------------------------------------------------
// Joining lines
// ---------------------------------------------------------------------------

/// The texts with `sep` between each two.
pub open spec fn join_with(ls: Seq<Seq<char>>, sep: Seq<char>) -> Seq<char>
    decreases ls.len(),
{
    if ls.len() == 0 {
        Seq::empty()
    } else if ls.len() == 1 {
        ls[0]
    } else {
        join_with(ls.drop_last(), sep) + sep + ls.last()
    }
}

/// Appends `piece` to `out`, which holds `join_with(done, sep)`, so that it holds
/// `join_with(done.push(piece), sep)`.
fn append_joined(
    out: &mut String,
    piece: &str,
    sep: &str,
    first: bool,
    Ghost(done): Ghost<Seq<Seq<char>>>,
)
    requires
        old(out)@ == join_with(done, sep@),
        first == (done.len() == 0),
    ensures
        final(out)@ == join_with(done.push(piece@), sep@),
{
    assert(done.push(piece@).drop_last() == done);
    if first {
        assert(old(out)@ == Seq::<char>::empty());
        out.append(piece);
        assert(out@ == piece@);
    } else {
        out.append(sep);
        out.append(piece);
    }
}

// ---------------------------------------------------------------------------
// Ordering of statistics by name
// ---------------------------------------------------------------------------

/// `a` comes before `b` in the order of their characters' code points.
pub open spec fn text_lt(a: Seq<char>, b: Seq<char>) -> bool
    decreases a.len(),
{
    if b.len() == 0 {
        false
    } else if a.len() == 0 {
        true
    } else if (a[0] as u32) < (b[0] as u32) {
        true
    } else if a[0] == b[0] {
        text_lt(a.drop_first(), b.drop_first())
    } else {
        false
    }
}

/// Whether `a` comes before `b`.
pub fn text_before(a: &Vec<char>, b: &Vec<char>) -> (r: bool)
    ensures
        r == text_lt(a@, b@),
{
    let mut i: usize = 0;
    assert(a@.skip(0) == a@ && b@.skip(0) == b@);
    loop
        invariant
            i <= a.len(),
            i <= b.len(),
            text_lt(a@, b@) == text_lt(a@.skip(i as int), b@.skip(i as int)),
        decreases a.len() - i,
    {
        if i == b.len() {
            return false;
        }
        if i == a.len() {
            return true;
        }
        let x = a[i] as u32;
        let y = b[i] as u32;
        assert(a@.skip(i as int)[0] == a@[i as int]);
        assert(b@.skip(i as int)[0] == b@[i as int]);
        if x < y {
            return true;
        }
        if a[i] != b[i] {
            return false;
        }
        assert(a@.skip(i as int).drop_first() == a@.skip(i + 1));
        assert(b@.skip(i as int).drop_first() == b@.skip(i + 1));
        i = i + 1;
    }
}

/// Where `e` goes among the entries `s` (ordered by name) so that it follows all
/// entries whose name is not after its own.
pub open spec fn insert_pos(s: Seq<StatEntry>, e: StatEntry) -> nat
    decreases s.len(),
{
    if s.len() == 0 {
        0
    } else if text_lt(e.0@, s.last().0@) {
        insert_pos(s.drop_last(), e)
    } else {
        s.len()
    }
}

/// The entries ordered by name, entries of equal name in their first order
/// (a stable sort).
pub open spec fn sorted_entries(s: Seq<StatEntry>) -> Seq<StatEntry>
    decreases s.len(),
{
    if s.len() == 0 {
        Seq::empty()
    } else {
        let rest = sorted_entries(s.drop_last());
        rest.insert(insert_pos(rest, s.last()) as int, s.last())
    }
}

/// Whether no entry's name comes before the name of an entry ahead of it.
pub open spec fn sorted_by_name(s: Seq<StatEntry>) -> bool {
    forall|i: int, j: int| 0 <= i < j < s.len() ==> !text_lt(#[trigger] s[j].0@, #[trigger] s[i].0@)
}

/// Proof that of two texts at most one comes before the other.
proof fn lemma_text_lt_asym(a: Seq<char>, b: Seq<char>)
    ensures
        text_lt(a, b) ==> !text_lt(b, a),
    decreases a.len(),
{
    if a.len() > 0 && b.len() > 0 && a[0] == b[0] {
        lemma_text_lt_asym(a.drop_first(), b.drop_first());
    }
}

/// Proof that "not before" is transitive.
proof fn lemma_text_not_lt_trans(a: Seq<char>, b: Seq<char>, c: Seq<char>)
    requires
        !text_lt(a, b),
        !text_lt(b, c),
    ensures
        !text_lt(a, c),
    decreases a.len(),
{
    if a.len() > 0 && b.len() > 0 && c.len() > 0 {
        if (a[0] as u32) == (b[0] as u32) && (b[0] as u32) == (c[0] as u32) {
            vstd::utf8::char_u32_cast(a[0], a[0] as u32);
            vstd::utf8::char_u32_cast(b[0], b[0] as u32);
            vstd::utf8::char_u32_cast(c[0], c[0] as u32);
            assert(a[0] == b[0] && b[0] == c[0]);
            lemma_text_not_lt_trans(a.drop_first(), b.drop_first(), c.drop_first());
        }
    }
}

/// Proof of where `insert_pos` puts an entry: every entry from there on has a
/// name after its own, the one just before it does not.
proof fn lemma_insert_pos(s: Seq<StatEntry>, e: StatEntry)
    ensures
        insert_pos(s, e) <= s.len(),
        forall|k: int| insert_pos(s, e) <= k < s.len() ==> text_lt(e.0@, #[trigger] s[k].0@),
        insert_pos(s, e) > 0 ==> !text_lt(e.0@, s[insert_pos(s, e) - 1].0@),
    decreases s.len(),
{
    if s.len() > 0 && text_lt(e.0@, s.last().0@) {
        lemma_insert_pos(s.drop_last(), e);
        assert forall|k: int| insert_pos(s, e) <= k < s.len() implies text_lt(
            e.0@,
            #[trigger] s[k].0@,
        ) by {
            if k < s.len() - 1 {
                assert(s[k] == s.drop_last()[k]);
            }
        }
        if insert_pos(s, e) > 0 {
            assert(s[insert_pos(s, e) - 1] == s.drop_last()[insert_pos(s, e) - 1]);
        }
    }
}

/// The statistics summary orders the entries by name: `sorted_entries` holds
/// the same entries, each as often as before, and no entry's name comes before
/// the name of an entry ahead of it.
pub proof fn lemma_sorted_entries(s: Seq<StatEntry>)
    ensures
        sorted_entries(s).to_multiset() == s.to_multiset(),
        sorted_by_name(sorted_entries(s)),
        sorted_entries(s).len() == s.len(),
    decreases s.len(),
{
    broadcast use vstd::seq_lib::to_multiset_insert, vstd::seq_lib::to_multiset_build;

    if s.len() == 0 {
        assert(sorted_entries(s) =~= s);
    } else {
        let init = s.drop_last();
        let e = s.last();
        lemma_sorted_entries(init);
        let rest = sorted_entries(init);
        lemma_insert_pos(rest, e);
        let p = insert_pos(rest, e) as int;
        let out = rest.insert(p, e);
        assert(s == init.push(e));
        assert(out.to_multiset() == s.to_multiset());
        assert forall|i: int, j: int| 0 <= i < j < out.len() implies !text_lt(
            #[trigger] out[j].0@,
            #[trigger] out[i].0@,
        ) by {
            if j < p {
                assert(out[i] == rest[i] && out[j] == rest[j]);
            } else if j == p {
                assert(out[j] == e);
                assert(out[i] == rest[i]);
                if i < p - 1 {
                    assert(!text_lt(rest[p - 1].0@, rest[i].0@));
                    lemma_text_not_lt_trans(e.0@, rest[p - 1].0@, rest[i].0@);
                }
            } else if i == p {
                assert(out[i] == e);
                assert(out[j] == rest[j - 1]);
                lemma_text_lt_asym(e.0@, rest[j - 1].0@);
            } else if i < p {
                assert(out[i] == rest[i] && out[j] == rest[j - 1]);
            } else {
                assert(out[i] == rest[i - 1] && out[j] == rest[j - 1]);
            }
        }
    }
}

/// Whether an entry is named `name`.
pub open spec fn has_name(name: Seq<char>) -> spec_fn(StatEntry) -> bool {
    |e: StatEntry| e.0@ == name
}

/// The entries named `name`, in their order.
pub open spec fn named(s: Seq<StatEntry>, name: Seq<char>) -> Seq<StatEntry> {
    s.filter(has_name(name))
}

/// The ordering by name is stable: the entries of any one name come out of
/// `sorted_entries` in the order in which they came in.
pub proof fn lemma_sorted_entries_stable(s: Seq<StatEntry>, name: Seq<char>)
    ensures
        named(sorted_entries(s), name) == named(s, name),
    decreases s.len(),
{
    broadcast use vstd::seq_lib::group_seq_properties;

    let pred = has_name(name);
    if s.len() == 0 {
        assert(sorted_entries(s) =~= s);
    } else {
        let init = s.drop_last();
        let e = s.last();
        lemma_sorted_entries_stable(init, name);
        let rest = sorted_entries(init);
        lemma_sorted_entries(init);
        lemma_insert_pos(rest, e);
        let p = insert_pos(rest, e) as int;
        let head = rest.take(p);
        let tail = rest.skip(p);
        assert(rest.insert(p, e) =~= head.push(e) + tail);
        assert(rest =~= head + tail);
        assert(s =~= init.push(e));
        Seq::filter_distributes_over_add(head.push(e), tail, pred);
        Seq::filter_distributes_over_add(head, tail, pred);
        head.lemma_filter_push(e, pred);
        init.lemma_filter_push(e, pred);
        if e.0@ == name {
            assert forall|k: int| 0 <= k < tail.len() implies !pred(#[trigger] tail[k]) by {
                assert(tail[k] == rest[p + k]);
                lemma_text_lt_asym(e.0@, rest[p + k].0@);
            }
            tail.lemma_all_neg_filter_empty(pred);
            assert(tail.filter(pred) =~= Seq::<StatEntry>::empty());
            assert(head.filter(pred).push(e) + tail.filter(pred) =~= (head.filter(pred) + tail.filter(
                pred,
            )).push(e));
        }
    }
}

/// The positions of `entries`, ordered as `sorted_entries` orders the entries.
fn sorted_positions(entries: &Vec<StatEntry>) -> (order: Vec<usize>)
    ensures
        order@.len() == entries@.len(),
        forall|k: int| 0 <= k < order@.len() ==> #[trigger] order@[k] < entries@.len(),
        order@.map_values(|i: usize| entries@[i as int]) == sorted_entries(entries@),
{
    let mut keys: Vec<Vec<char>> = Vec::new();
    let mut n: usize = 0;
    while n < entries.len()
        invariant
            n <= entries.len(),
            keys@.len() == n,
            forall|k: int| 0 <= k < n ==> (#[trigger] keys@[k])@ == entries@[k].0@,
        decreases entries.len() - n,
    {
        keys.push(chars_of(entries[n].0.as_str()));
        n = n + 1;
    }
    let mut order: Vec<usize> = Vec::new();
    let mut i: usize = 0;
    while i < entries.len()
        invariant
            i <= entries.len(),
            keys@.len() == entries@.len(),
            forall|k: int| 0 <= k < entries@.len() ==> (#[trigger] keys@[k])@ == entries@[k].0@,
            order@.len() == i,
            forall|k: int| 0 <= k < order@.len() ==> #[trigger] order@[k] < i,
            order@.map_values(|x: usize| entries@[x as int]) == sorted_entries(
                entries@.take(i as int),
            ),
        decreases entries.len() - i,
    {
        let ghost before = order@.map_values(|x: usize| entries@[x as int]);
        let ghost e = entries@[i as int];
        let mut j = order.len();
        proof {
            assert(before.take(j as int) == before);
        }
        while j > 0 && text_before(&keys[i], &keys[order[j - 1]])
            invariant
                j <= order@.len(),
                keys@.len() == entries@.len(),
                forall|k: int| 0 <= k < entries@.len() ==> (#[trigger] keys@[k])@ == entries@[k].0@,
                forall|k: int| 0 <= k < order@.len() ==> #[trigger] order@[k] < i,
                i < entries@.len(),
                before == order@.map_values(|x: usize| entries@[x as int]),
                e == entries@[i as int],
                insert_pos(before, e) == insert_pos(before.take(j as int), e),
            decreases j,
        {
            proof {
                let o = order@[j - 1] as int;
                assert(before[j - 1] == entries@[o]);
                assert(keys@[o]@ == entries@[o].0@);
                assert(keys@[i as int]@ == e.0@);
                assert(before.take(j as int).last() == entries@[o]);
                assert(before.take(j as int).drop_last() == before.take(j - 1));
            }
            j = j - 1;
        }
        proof {
            if j > 0 {
                let o = order@[j - 1] as int;
                assert(before[j - 1] == entries@[o]);
                assert(keys@[o]@ == entries@[o].0@);
                assert(keys@[i as int]@ == e.0@);
                assert(before.take(j as int).last() == entries@[order@[j - 1] as int]);
                assert(!text_lt(e.0@, before.take(j as int).last().0@));
            }
            assert(insert_pos(before.take(j as int), e) == j);
            assert(entries@.take(i + 1).drop_last() == entries@.take(i as int));
            assert(entries@.take(i + 1).last() == e);
        }
        order.insert(j, i);
        proof {
            assert(order@.map_values(|x: usize| entries@[x as int]) =~= before.insert(
                j as int,
                e,
            ));
        }
        i = i + 1;
    }
    assert(entries@.take(i as int) == entries@);
    order
}

// ---------------------------------------------------------------------------
// Lifetime statistics
// ---------------------------------------------------------------------------

/// `W` for the result `"1"`, `L` for any other.
pub open spec fn result_mark(r: Option<String>) -> Seq<char> {
    match r {
        Some(s) => if s@ == "1"@ {
            "W"@
        } else {
            "L"@
        },
        None => "L"@,
    }
}

/// The marks of the results.
pub open spec fn marks(results: Seq<Option<String>>) -> Seq<Seq<char>> {
    results.map_values(|r: Option<String>| result_mark(r))
}

/// The form guide: `W` for each result `"1"`, `L` for any other, space between.
pub open spec fn form_text(results: Seq<Option<String>>) -> Seq<char> {
    join_with(marks(results), " "@)
}

/// The line of one lifetime statistic: its name, `: `, and its value; the
/// recent results are written as a form guide.
pub open spec fn stat_line_text(e: StatEntry) -> Seq<char> {
    let text = if e.0@ == "Recent Results"@ {
        match e.1 {
            StatValue::List(items, _) => form_text(items@),
            _ => value_text(e.1),
        }
    } else {
        value_text(e.1)
    };
    e.0@ + ": "@ + text
}

/// The summary lines of the entries.
pub open spec fn stat_lines(es: Seq<StatEntry>) -> Seq<Seq<char>> {
    es.map_values(|e: StatEntry| stat_line_text(e))
}

/// The number of lifetime statistics that go into the summary.
pub const SUMMARY_STATS: usize = 20;

/// The lifetime summary: the first 20 statistics by name, one line each.
pub open spec fn lifetime_text(stats: Option<PlayerLifetimeStats>) -> Seq<char> {
    match stats {
        Some(s) => match s.lifetime {
            Some(m) => {
                let sorted = sorted_entries(m@);
                let shown = if sorted.len() > SUMMARY_STATS {
                    sorted.take(SUMMARY_STATS as int)
                } else {
                    sorted
                };
                join_with(stat_lines(shown), "\n"@)
            },
            None => Seq::empty(),
        },
        None => Seq::empty(),
    }
}

/// The form guide of a list of results.
fn form_guide(results: &Vec<Option<String>>) -> (s: String)
    ensures
        s@ == form_text(results@),
{
    let mut out = String::new();
    let mut i: usize = 0;
    while i < results.len()
        invariant
            i <= results.len(),
            out@ == join_with(marks(results@.take(i as int)), " "@),
        decreases results.len() - i,
    {
        let win = match &results[i] {
            Some(r) => same_text(r.as_str(), "1"),
            None => false,
        };
        let letter = if win {
            "W"
        } else {
            "L"
        };
        assert(letter@ == result_mark(results@[i as int]));
        append_joined(&mut out, letter, " ", i == 0, Ghost(marks(results@.take(i as int))));
        assert(marks(results@.take(i + 1)) =~= marks(results@.take(i as int)).push(
            result_mark(results@[i as int]),
        ));
        i = i + 1;
    }
    assert(results@.take(i as int) == results@);
    out
}

/// The summary line of one lifetime statistic.
fn stat_line(e: &StatEntry) -> (s: String)
    ensures
        s@ == stat_line_text(*e),
{
    let text = if same_text(e.0.as_str(), "Recent Results") {
        match &e.1 {
            StatValue::List(items, _) => form_guide(items),
            _ => value_to_text(&e.1),
        }
    } else {
        value_to_text(&e.1)
    };
    let mut s = e.0.clone();
    s.append(": ");
    s.append(text.as_str());
    s
}

/// The lifetime summary: the first 20 statistics by name, one per line.
pub fn lifetime_summary(stats: &Option<PlayerLifetimeStats>) -> (s: String)
    ensures
        s@ == lifetime_text(*stats),
{
    let m = match stats {
        Some(st) => match &st.lifetime {
            Some(m) => m,
            None => {
                return String::new();
            },
        },
        None => {
            return String::new();
        },
    };
    let order = sorted_positions(m);
    let ghost sorted = sorted_entries(m@);
    let count = if order.len() > SUMMARY_STATS {
        SUMMARY_STATS
    } else {
        order.len()
    };
    let ghost shown = sorted.take(count as int);
    let mut out = String::new();
    let mut i: usize = 0;
    while i < count
        invariant
            i <= count <= order@.len(),
            order@.len() == m@.len(),
            forall|k: int| 0 <= k < order@.len() ==> #[trigger] order@[k] < m@.len(),
            order@.map_values(|x: usize| m@[x as int]) == sorted,
            shown == sorted.take(count as int),
            out@ == join_with(stat_lines(shown.take(i as int)), "\n"@),
        decreases count - i,
    {
        let idx = order[i];
        assert(sorted[i as int] == m@[idx as int]);
        let line = stat_line(&m[idx]);
        assert(shown[i as int] == m@[idx as int]);
        append_joined(&mut out, line.as_str(), "\n", i == 0, Ghost(stat_lines(shown.take(i as int))));
        assert(stat_lines(shown.take(i + 1)) =~= stat_lines(shown.take(i as int)).push(line@));
        i = i + 1;
    }
    assert(shown.take(i as int) == shown);
    assert(sorted.len() == order@.len());
    proof {
        if sorted.len() <= SUMMARY_STATS {
            assert(shown == sorted);
        }
    }
    out
}

// ---------------------------------------------------------------------------
// Maps
// ---------------------------------------------------------------------------

/// The value of a map statistic as shown, `-` when it is missing or not a string.
pub open spec fn map_stat_text(stats: Seq<StatEntry>, key: Seq<char>) -> Seq<char> {
    match value_str(entry_value(stats, key)) {
        Some(t) => t,
        None => "-"@,
    }
}

/// The summary line of a map segment, if it has a label and statistics.
pub open spec fn map_line(s: LifetimeSegment) -> Option<Seq<char>> {
    match (s.label, s.stats) {
        (Some(label), Some(st)) => Some(
            label@ + ": M:"@ + map_stat_text(st@, "Matches"@) + " W:"@ + map_stat_text(
                st@,
                "Wins"@,
            ) + " WR:"@ + map_stat_text(st@, "Win Rate %"@),
        ),
        _ => None,
    }
}

/// The summary lines of the map segments that have a label and statistics.
pub open spec fn map_lines(segs: Seq<LifetimeSegment>) -> Seq<Seq<char>>
    decreases segs.len(),
{
    if segs.len() == 0 {
        Seq::empty()
    } else {
        let rest = map_lines(segs.drop_last());
        let s = segs.last();
        if is_map_segment(s) && map_line(s) is Some {
            rest.push(map_line(s)->0)
        } else {
            rest
        }
    }
}

/// The maps summary: one line per map segment with a label and statistics.
pub open spec fn maps_text(stats: Option<PlayerLifetimeStats>) -> Seq<char> {
    match stats {
        Some(s) => match s.segments {
            Some(segs) => join_with(map_lines(segs@), "\n"@),
            None => Seq::empty(),
        },
        None => Seq::empty(),
    }
}

/// A map statistic as shown.
fn map_stat(stats: &Vec<StatEntry>, key: &str) -> (s: String)
    ensures
        s@ == map_stat_text(stats@, key@),
{
    match lookup(stats, key) {
        Some(StatValue::Text(t)) => t.clone(),
        _ => owned("-"),
    }
}

/// The summary line of a map segment.
fn map_line_of(s: &LifetimeSegment) -> (r: Option<String>)
    ensures
        r matches Some(t) ==> map_line(*s) == Some(t@),
        r is None ==> map_line(*s) is None,
{
    match (&s.label, &s.stats) {
        (Some(label), Some(st)) => {
            let mut t = label.clone();
            t.append(": M:");
            let m = map_stat(st, "Matches");
            t.append(m.as_str());
            t.append(" W:");
            let w = map_stat(st, "Wins");
            t.append(w.as_str());
            t.append(" WR:");
            let wr = map_stat(st, "Win Rate %");
            t.append(wr.as_str());
            Some(t)
        },
        _ => None,
    }
}

/// The maps summary.
pub fn maps_summary(stats: &Option<PlayerLifetimeStats>) -> (s: String)
    ensures
        s@ == maps_text(*stats),
{
    let segs = match stats {
        Some(st) => match &st.segments {
            Some(segs) => segs,
            None => {
                return String::new();
            },
        },
        None => {
            return String::new();
        },
    };
    let mut out = String::new();
    let mut lines: usize = 0;
    let mut i: usize = 0;
    while i < segs.len()
        invariant
            i <= segs.len(),
            lines == map_lines(segs@.take(i as int)).len(),
            lines <= i,
            out@ == join_with(map_lines(segs@.take(i as int)), "\n"@),
        decreases segs.len() - i,
    {
        proof {
            assert(segs@.take(i + 1).drop_last() == segs@.take(i as int));
            assert(segs@.take(i + 1).last() == segs@[i as int]);
        }
        if segment_is_map(&segs[i]) {
            match map_line_of(&segs[i]) {
                Some(line) => {
                    append_joined(
                        &mut out,
                        line.as_str(),
                        "\n",
                        lines == 0,
                        Ghost(map_lines(segs@.take(i as int))),
                    );
                    lines = lines + 1;
                },
                None => {},
            }
        }
        i = i + 1;
    }
    assert(segs@.take(i as int) == segs@);
    out
}

// ---------------------------------------------------------------------------
// Recent matches
// ---------------------------------------------------------------------------

/// The number of matches that go into the summary.
pub const SUMMARY_MATCHES: usize = 20;

/// A match result as a letter: `W` for `1`, `L` for `0`, `?` otherwise.
pub open spec fn result_letter(result: Seq<char>) -> Seq<char> {
    if result == "1"@ {
        "W"@
    } else if result == "0"@ {
        "L"@
    } else {
        "?"@
    }
}

/// The summary line of a match: map, score, result and kill/death ratio.
pub open spec fn match_line(m: MatchItem) -> Seq<char> {
    field_text(m@, "Map"@) + " | "@ + field_text(m@, "Score"@) + " | "@ + result_letter(
        field_text(m@, "Result"@),
    ) + " | KD:"@ + field_text(m@, "K/D Ratio"@)
}

/// The summary lines of the matches.
pub open spec fn match_lines(ms: Seq<MatchItem>) -> Seq<Seq<char>> {
    ms.map_values(|m: MatchItem| match_line(m))
}

/// The matches summary: the first 20 matches, one line each.
pub open spec fn matches_text(history: Option<Vec<MatchItem>>) -> Seq<char> {
    match history {
        Some(h) => {
            let shown = if h@.len() > SUMMARY_MATCHES {
                h@.take(SUMMARY_MATCHES as int)
            } else {
                h@
            };
            join_with(match_lines(shown), "\n"@)
        },
        None => Seq::empty(),
    }
}

/// The matches summary shows the most recent matches: the first 20 of the
/// history (all of them when there are fewer), in their order, line `k` being
/// the summary line of match `k`, the lines joined by line breaks.
pub proof fn lemma_matches_text_recent(h: Vec<MatchItem>)
    ensures
        matches_text(Some(h)) == join_with(
            Seq::new(
                if h@.len() < 20 {
                    h@.len()
                } else {
                    20
                },
                |k: int| match_line(h@[k]),
            ),
            "\n"@,
        ),
{
    let n: nat = if h@.len() < 20 {
        h@.len()
    } else {
        20
    };
    let shown = if h@.len() > SUMMARY_MATCHES {
        h@.take(SUMMARY_MATCHES as int)
    } else {
        h@
    };
    assert(match_lines(shown) =~= Seq::new(n, |k: int| match_line(h@[k])));
}

/// The summary line of a match.
fn match_line_of(m: &MatchItem) -> (s: String)
    ensures
        s@ == match_line(*m),
{
    let map = match_field(m, "Map");
    let score = match_field(m, "Score");
    let result = match_field(m, "Result");
    let kd = match_field(m, "K/D Ratio");
    let letter = if same_text(result.as_str(), "1") {
        "W"
    } else if same_text(result.as_str(), "0") {
        "L"
    } else {
        "?"
    };
    let mut s = map;
    s.append(" | ");
    s.append(score.as_str());
    s.append(" | ");
    s.append(letter);
    s.append(" | KD:");
    s.append(kd.as_str());
    s
}

/// The matches summary.
pub fn matches_summary(history: &Option<Vec<MatchItem>>) -> (s: String)
    ensures
        s@ == matches_text(*history),
{
    let h = match history {
        Some(h) => h,
        None => {
            return String::new();
        },
    };
    let count = if h.len() > SUMMARY_MATCHES {
        SUMMARY_MATCHES
    } else {
        h.len()
    };
    let mut out = String::new();
    let mut i: usize = 0;
    while i < count
        invariant
            i <= count <= h@.len(),
            out@ == join_with(match_lines(h@.take(i as int)), "\n"@),
        decreases count - i,
    {
        let line = match_line_of(&h[i]);
        append_joined(&mut out, line.as_str(), "\n", i == 0, Ghost(match_lines(h@.take(i as int))));
        assert(match_lines(h@.take(i + 1)) =~= match_lines(h@.take(i as int)).push(line@));
        i = i + 1;
    }
    assert(h@.take(i as int) == h@.take(count as int));
    proof {
        if h@.len() <= SUMMARY_MATCHES {
            assert(h@.take(count as int) == h@);
        }
    }
    out
}

} // verus!
