//! The FACEIT data the viewer works with, the addresses of the FACEIT data API
//! and the handling of its answers.
//!
//! The HTTP exchange itself and the JSON decoding happen outside the library;
//! what they yield is handed in as the plain values defined here.

use vstd::prelude::*;
use vstd::utf8::encode_utf8;

use crate::format::{api_error, api_error_text, fmt_thousands, thousands};
use crate::text::{decimal, join2, join3, owned, same_text, usize_text};

verus! {

broadcast use vstd::string::group_string_axioms;

// ---------------------------------------------------------------------------
// Player profile
// ---------------------------------------------------------------------------

/// A FACEIT player as the search endpoint describes them.
pub struct PlayerProfile {
    pub player_id: String,
    pub nickname: String,
    pub avatar: Option<String>,
    pub country: Option<String>,
    pub games: Option<PlayerGames>,
}

/// The games a player has a FACEIT record for.
pub struct PlayerGames {
    pub cs2: Option<Cs2Info>,
}

/// A player's CS2 record on FACEIT.
pub struct Cs2Info {
    pub skill_level: Option<i32>,
    pub faceit_elo: Option<i32>,
    pub game_player_name: Option<String>,
    pub region: Option<String>,
}

impl PlayerProfile {
    /// The player's CS2 record, if the profile has one.
    pub fn cs2(&self) -> (r: Option<&Cs2Info>)
        ensures
            r == match self.games {
                Some(g) => match g.cs2 {
                    Some(c) => Some(&c),
                    None => None::<&Cs2Info>,
                },
                None => None,
            },
    {
        match &self.games {
            Some(g) => match &g.cs2 {
                Some(c) => Some(c),
                None => None,
            },
            None => None,
        }
    }
}

// ---------------------------------------------------------------------------
// Lifetime statistics
// ---------------------------------------------------------------------------

/// A JSON value of the statistics, as far as the viewer reads it: numbers keep
/// their JSON text, a list keeps the text of each element that is a string and
/// its own JSON text, an object keeps its JSON text.
pub enum StatValue {
    Null,
    Bool(bool),
    Number(String),
    Text(String),
    List(Vec<Option<String>>, String),
    Object(String),
}

/// A statistic's name and value.
pub type StatEntry = (String, StatValue);

/// One section of the lifetime statistics (one per map and mode).
pub struct LifetimeSegment {
    pub type_field: Option<String>,
    pub mode: Option<String>,
    pub label: Option<String>,
    pub img_regular: Option<String>,
    pub stats: Option<Vec<StatEntry>>,
}

/// A player's lifetime CS2 statistics.
pub struct PlayerLifetimeStats {
    pub player_id: String,
    pub game_id: String,
    pub lifetime: Option<Vec<StatEntry>>,
    pub segments: Option<Vec<LifetimeSegment>>,
}

/// The statistics of one match: each field's name and display text.
pub type MatchItem = Vec<(String, String)>;

/// Whether no name occurs twice among named entries, as with the fields of a
/// JSON object.
pub open spec fn distinct_names<V>(s: Seq<(String, V)>) -> bool {
    forall|i: int, j: int|
        0 <= i < s.len() && 0 <= j < s.len() && i != j ==> #[trigger] s[i].0@ != #[trigger] s[j].0@
}

/// Whether the lifetime statistics hold each statistic once, overall and in
/// every segment.
#[verifier::opaque]
pub open spec fn lifetime_wf(s: PlayerLifetimeStats) -> bool {
    &&& (s.lifetime matches Some(m) ==> distinct_names(m@))
    &&& (s.segments matches Some(segs) ==> forall|k: int|
        0 <= k < segs@.len() ==> (#[trigger] segs@[k].stats matches Some(st) ==> distinct_names(
            st@,
        )))
}

/// The text of a statistic's value: a string as it is, a number in its JSON form,
/// `true`/`false`, nothing for null, and lists and objects as JSON.
pub open spec fn value_text(v: StatValue) -> Seq<char> {
    match v {
        StatValue::Null => Seq::empty(),
        StatValue::Bool(b) => if b {
            "true"@
        } else {
            "false"@
        },
        StatValue::Number(t) => t@,
        StatValue::Text(s) => s@,
        StatValue::List(_, json) => json@,
        StatValue::Object(json) => json@,
    }
}

/// The text shown for a statistic's value.
pub fn value_to_text(v: &StatValue) -> (s: String)
    ensures
        s@ == value_text(*v),
{
    match v {
        StatValue::Null => String::new(),
        StatValue::Bool(b) => if *b {
            owned("true")
        } else {
            owned("false")
        },
        StatValue::Number(t) => t.clone(),
        StatValue::Text(s) => s.clone(),
        StatValue::List(_, json) => json.clone(),
        StatValue::Object(json) => json.clone(),
    }
}

/// Index of the first entry named `key`, or `entries.len()`.
pub open spec fn entry_index(entries: Seq<StatEntry>, key: Seq<char>) -> int
    decreases entries.len(),
{
    if entries.len() == 0 {
        0
    } else if entries[0].0@ == key {
        0
    } else {
        1 + entry_index(entries.drop_first(), key)
    }
}

/// Proof that `entry_index` is a position of the sequence or its end, and that
/// no earlier entry has the name.
pub proof fn lemma_entry_index(entries: Seq<StatEntry>, key: Seq<char>)
    ensures
        0 <= entry_index(entries, key) <= entries.len(),
        entry_index(entries, key) < entries.len() ==> entries[entry_index(entries, key)].0@ == key,
        forall|k: int| 0 <= k < entry_index(entries, key) ==> entries[k].0@ != key,
    decreases entries.len(),
{
    if entries.len() > 0 && entries[0].0@ != key {
        lemma_entry_index(entries.drop_first(), key);
        assert forall|k: int| 0 <= k < entry_index(entries, key) implies entries[k].0@ != key by {
            if k > 0 {
                assert(entries[k] == entries.drop_first()[k - 1]);
            }
        }
    }
}

/// The value of the first entry named `key`.
pub open spec fn entry_value(entries: Seq<StatEntry>, key: Seq<char>) -> Option<StatValue> {
    let i = entry_index(entries, key);
    if i < entries.len() {
        Some(entries[i].1)
    } else {
        None
    }
}

/// The statistics read as a map: where no name occurs twice, the name of any
/// entry finds that entry's value.
pub proof fn lemma_lookup_finds_entry(entries: Seq<StatEntry>, i: int)
    requires
        distinct_names(entries),
        0 <= i < entries.len(),
    ensures
        entry_value(entries, entries[i].0@) == Some(entries[i].1),
{
    lemma_entry_index(entries, entries[i].0@);
    let k = entry_index(entries, entries[i].0@);
    if k != i {
        assert(entries[k].0@ == entries[i].0@);
    }
}

/// The value of the entry named `key`.
pub fn lookup<'a>(entries: &'a Vec<StatEntry>, key: &str) -> (r: Option<&'a StatValue>)
    ensures
        r == match entry_value(entries@, key@) {
            Some(v) => Some(&v),
            None => None::<&StatValue>,
        },
{
    proof {
        lemma_entry_index(entries@, key@);
    }
    let mut i: usize = 0;
    while i < entries.len()
        invariant
            i <= entries.len(),
            forall|k: int| 0 <= k < i ==> entries@[k].0@ != key@,
            i <= entry_index(entries@, key@) <= entries@.len(),
            entry_index(entries@, key@) < entries@.len() ==> entries@[entry_index(
                entries@,
                key@,
            )].0@ == key@,
            forall|k: int| 0 <= k < entry_index(entries@, key@) ==> entries@[k].0@ != key@,
        decreases entries.len() - i,
    {
        if same_text(entries[i].0.as_str(), key) {
            return Some(&entries[i].1);
        }
        i = i + 1;
    }
    None
}

/// The text of a value when it is a JSON string.
pub open spec fn value_str(v: Option<StatValue>) -> Option<Seq<char>> {
    match v {
        Some(StatValue::Text(s)) => Some(s@),
        _ => None,
    }
}

/// Whether a segment holds the statistics of one map.
pub open spec fn is_map_segment(s: LifetimeSegment) -> bool {
    match s.type_field {
        Some(t) => t@ == "Map"@,
        None => false,
    }
}

/// Whether a segment holds the statistics of one map.
pub fn segment_is_map(s: &LifetimeSegment) -> (r: bool)
    ensures
        r == is_map_segment(*s),
{
    match &s.type_field {
        Some(t) => same_text(t.as_str(), "Map"),
        None => false,
    }
}

/// The number of map segments among `segs`.
pub open spec fn map_count(segs: Seq<LifetimeSegment>) -> nat
    decreases segs.len(),
{
    if segs.len() == 0 {
        0
    } else {
        map_count(segs.drop_last()) + if is_map_segment(segs.last()) {
            1nat
        } else {
            0nat
        }
    }
}

/// Proof that there are no more map segments than segments.
pub proof fn lemma_map_count_le(segs: Seq<LifetimeSegment>)
    ensures
        map_count(segs) <= segs.len(),
    decreases segs.len(),
{
    if segs.len() > 0 {
        lemma_map_count_le(segs.drop_last());
    }
}

/// The number of map segments.
pub fn count_map_segments(segs: &Vec<LifetimeSegment>) -> (n: usize)
    ensures
        n == map_count(segs@),
{
    let mut n: usize = 0;
    let mut i: usize = 0;
    while i < segs.len()
        invariant
            i <= segs.len(),
            n == map_count(segs@.take(i as int)),
            n <= i,
        decreases segs.len() - i,
    {
        proof {
            assert(segs@.take(i + 1).drop_last() == segs@.take(i as int));
            assert(segs@.take(i + 1).last() == segs@[i as int]);
        }
        if segment_is_map(&segs[i]) {
            n = n + 1;
        }
        i = i + 1;
    }
    assert(segs@.take(i as int) == segs@);
    n
}

// ---------------------------------------------------------------------------
// Match history values
// ---------------------------------------------------------------------------

/// A value of a match's statistics as the match-history endpoint gives it. A
/// value that is neither a string, an integer, a boolean nor null arrives
/// already written out.
pub enum MatchValue {
    Text(String),
    Int(i64),
    UInt(u64),
    Bool(bool),
    Null,
    Written(String),
}

/// The display text of a match statistic: integers with `.` between groups of
/// three digits (an unsigned one above `i64::MAX` first wrapped into the signed
/// range), `true`/`false`, nothing for null.
pub open spec fn match_value_text(v: MatchValue) -> Seq<char> {
    match v {
        MatchValue::Text(s) => s@,
        MatchValue::Int(i) => thousands(i as int),
        MatchValue::UInt(u) => if u <= i64::MAX {
            thousands(u as int)
        } else {
            thousands(u - 0x1_0000_0000_0000_0000)
        },
        MatchValue::Bool(b) => if b {
            "true"@
        } else {
            "false"@
        },
        MatchValue::Null => Seq::empty(),
        MatchValue::Written(s) => s@,
    }
}

/// The display text of a match statistic.
pub fn match_value_to_text(v: &MatchValue) -> (s: String)
    ensures
        s@ == match_value_text(*v),
{
    match v {
        MatchValue::Text(s) => s.clone(),
        MatchValue::Int(i) => fmt_thousands(*i),
        MatchValue::UInt(u) => {
            let wrapped: i64 = if *u <= 0x7FFF_FFFF_FFFF_FFFF {
                *u as i64
            } else {
                ((*u as i128) - 0x1_0000_0000_0000_0000i128) as i64
            };
            fmt_thousands(wrapped)
        },
        MatchValue::Bool(b) => if *b {
            owned("true")
        } else {
            owned("false")
        },
        MatchValue::Null => String::new(),
        MatchValue::Written(s) => s.clone(),
    }
}

/// The statistics of one match with each value written for display.
pub fn match_item_from(stats: &Vec<(String, MatchValue)>) -> (item: MatchItem)
    ensures
        item@.len() == stats@.len(),
        forall|i: int| 0 <= i < stats@.len() ==> (#[trigger] item@[i]).0@ == stats@[i].0@,
        forall|i: int|
            0 <= i < stats@.len() ==> (#[trigger] item@[i]).1@ == match_value_text(stats@[i].1),
        distinct_names(stats@) ==> distinct_names(item@),
{
    let mut item: MatchItem = Vec::new();
    let mut i: usize = 0;
    while i < stats.len()
        invariant
            i <= stats.len(),
            item@.len() == i,
            forall|k: int| 0 <= k < i ==> (#[trigger] item@[k]).0@ == stats@[k].0@,
            forall|k: int|
                0 <= k < i ==> (#[trigger] item@[k]).1@ == match_value_text(stats@[k].1),
        decreases stats.len() - i,
    {
        let text = match_value_to_text(&stats[i].1);
        item.push((stats[i].0.clone(), text));
        i = i + 1;
    }
    item
}

/// The fields of a match as texts: each name with its display text.
pub open spec fn item_texts(item: Seq<(String, String)>) -> Seq<(Seq<char>, Seq<char>)> {
    item.map_values(|e: (String, String)| (e.0@, e.1@))
}

/// The fields of a match with each value written for display.
pub open spec fn written_stats(stats: Seq<(String, MatchValue)>) -> Seq<(Seq<char>, Seq<char>)> {
    stats.map_values(|e: (String, MatchValue)| (e.0@, match_value_text(e.1)))
}

/// The matches of a history answer, given for each of its items the statistics
/// object if it has one: the items with one, in order, their values written
/// for display; items without one are left out.
pub open spec fn history_texts(raw: Seq<Option<Vec<(String, MatchValue)>>>) -> Seq<
    Seq<(Seq<char>, Seq<char>)>,
>
    decreases raw.len(),
{
    if raw.len() == 0 {
        Seq::empty()
    } else {
        history_texts(raw.drop_last()) + match raw.last() {
            Some(stats) => seq![written_stats(stats@)],
            None => Seq::empty(),
        }
    }
}

/// The matches of a history answer (see `history_texts`).
pub fn history_items(raw: &Vec<Option<Vec<(String, MatchValue)>>>) -> (items: Vec<MatchItem>)
    ensures
        items@.map_values(|m: MatchItem| item_texts(m@)) == history_texts(raw@),
        (forall|k: int|
            0 <= k < raw@.len() ==> (#[trigger] raw@[k] matches Some(st) ==> distinct_names(st@)))
            ==> forall|k: int| 0 <= k < items@.len() ==> distinct_names(#[trigger] items@[k]@),
{
    let ghost fields_once = forall|k: int|
        0 <= k < raw@.len() ==> (#[trigger] raw@[k] matches Some(st) ==> distinct_names(st@));
    let mut items: Vec<MatchItem> = Vec::new();
    let mut i: usize = 0;
    while i < raw.len()
        invariant
            i <= raw.len(),
            items@.map_values(|m: MatchItem| item_texts(m@)) == history_texts(raw@.take(i as int)),
            fields_once == forall|k: int|
                0 <= k < raw@.len() ==> (#[trigger] raw@[k] matches Some(st) ==> distinct_names(
                    st@,
                )),
            fields_once ==> forall|k: int| 0 <= k < items@.len() ==> distinct_names(#[trigger] items@[k]@),
        decreases raw.len() - i,
    {
        let ghost before = items@.map_values(|m: MatchItem| item_texts(m@));
        assert(raw@.take(i + 1).drop_last() =~= raw@.take(i as int));
        assert(raw@.take(i + 1).last() == raw@[i as int]);
        match &raw[i] {
            Some(stats) => {
                let item = match_item_from(stats);
                assert(item_texts(item@) =~= written_stats(stats@));
                proof {
                    if fields_once {
                        assert(raw@[i as int] matches Some(st) ==> distinct_names(st@));
                    }
                }
                items.push(item);
                assert(items@.map_values(|m: MatchItem| item_texts(m@)) =~= before.push(
                    written_stats(stats@),
                ));
                assert(before + seq![written_stats(stats@)] =~= before.push(written_stats(stats@)));
            },
            None => {
                assert(before + Seq::<Seq<(Seq<char>, Seq<char>)>>::empty() =~= before);
            },
        }
        i = i + 1;
    }
    assert(raw@.take(i as int) =~= raw@);
    items
}

/// The text of a match field, or nothing when the match has no such field.
pub open spec fn field_text(item: Seq<(String, String)>, key: Seq<char>) -> Seq<char>
    decreases item.len(),
{
    if item.len() == 0 {
        Seq::empty()
    } else if item[0].0@ == key {
        item[0].1@
    } else {
        field_text(item.drop_first(), key)
    }
}

/// The text of a match field (the first of that name), or an empty text.
pub fn match_field(item: &MatchItem, key: &str) -> (s: String)
    ensures
        s@ == field_text(item@, key@),
{
    let mut i: usize = 0;
    assert(item@.skip(0) == item@);
    while i < item.len()
        invariant
            i <= item.len(),
            field_text(item@, key@) == field_text(item@.skip(i as int), key@),
        decreases item.len() - i,
    {
        assert(item@.skip(i as int)[0] == item@[i as int]);
        if same_text(item[i].0.as_str(), key) {
            return item[i].1.clone();
        }
        assert(item@.skip(i as int).drop_first() == item@.skip(i + 1));
        i = i + 1;
    }
    assert(item@.skip(i as int).len() == 0);
    String::new()
}

/// A match read as a map: where no field name occurs twice, the name of any
/// field finds that field's text.
pub proof fn lemma_field_finds_entry(item: Seq<(String, String)>, i: int)
    requires
        distinct_names(item),
        0 <= i < item.len(),
    ensures
        field_text(item, item[i].0@) == item[i].1@,
    decreases i,
{
    if i > 0 {
        assert(item[0].0@ != item[i].0@);
        let rest = item.drop_first();
        assert(rest[i - 1] == item[i]);
        assert forall|a: int, b: int|
            0 <= a < rest.len() && 0 <= b < rest.len() && a != b implies #[trigger] rest[a].0@
            != #[trigger] rest[b].0@ by {
            assert(rest[a] == item[a + 1]);
            assert(rest[b] == item[b + 1]);
        }
        lemma_field_finds_entry(rest, i - 1);
    }
}

// ---------------------------------------------------------------------------
// Addresses of the FACEIT data API
// ---------------------------------------------------------------------------

/// The root of the FACEIT data API.
pub open spec fn base_url() -> Seq<char> {
    "https://open.faceit.com/data/v4"@
}

/// Whether a byte is left as it is by URL encoding.
pub open spec fn is_unreserved(b: u8) -> bool {
    ||| 0x30 <= b <= 0x39
    ||| 0x41 <= b <= 0x5A
    ||| 0x61 <= b <= 0x7A
    ||| b == 0x2D
    ||| b == 0x2E
    ||| b == 0x5F
    ||| b == 0x7E
}

/// The upper-case hexadecimal digit of `d` (below 16).
pub open spec fn hex_digit(d: u8) -> char {
    if d < 10 {
        (48 + d) as char
    } else {
        (55 + d) as char
    }
}

/// Percent-encoding of bytes: every byte that is not an ASCII letter, digit, `-`,
/// `.`, `_` or `~` becomes `%` and two upper-case hexadecimal digits.
pub open spec fn percent_encode(b: Seq<u8>) -> Seq<char>
    decreases b.len(),
{
    if b.len() == 0 {
        Seq::empty()
    } else {
        let x = b[0];
        let head = if is_unreserved(x) {
            seq![x as char]
        } else {
            seq!['%', hex_digit(x / 16), hex_digit(x % 16)]
        };
        head + percent_encode(b.drop_first())
    }
}

/// `urlencoding::encode`: the text's UTF-8 bytes, percent-encoded.
#[verifier::external_body]
fn url_encode(s: &str) -> (r: String)
    ensures
        r@ == percent_encode(encode_utf8(s@)),
{
    urlencoding::encode(s).into_owned()
}

/// The address that looks a player up by nickname.
pub fn search_player_url(nickname: &str) -> (url: String)
    ensures
        url@ == base_url() + "/players?nickname="@ + percent_encode(encode_utf8(nickname@)),
{
    let encoded = url_encode(nickname);
    join3("https://open.faceit.com/data/v4", "/players?nickname=", encoded.as_str())
}

/// The address of a player's lifetime CS2 statistics.
pub fn lifetime_stats_url(player_id: &str) -> (url: String)
    ensures
        url@ == base_url() + "/players/"@ + player_id@ + "/stats/cs2"@,
{
    let mut url = join3("https://open.faceit.com/data/v4", "/players/", player_id);
    url.append("/stats/cs2");
    url
}

/// The address of one page of a player's CS2 match history.
pub fn match_history_url(player_id: &str, offset: usize, limit: usize) -> (url: String)
    ensures
        url@ == base_url() + "/players/"@ + player_id@ + "/games/cs2/stats?offset="@ + decimal(
            offset as int,
        ) + "&limit="@ + decimal(limit as int),
{
    let mut url = join3("https://open.faceit.com/data/v4", "/players/", player_id);
    url.append("/games/cs2/stats?offset=");
    let o = usize_text(offset);
    url.append(o.as_str());
    url.append("&limit=");
    let l = usize_text(limit);
    url.append(l.as_str());
    url
}

/// The `Authorization` header value for an API key: `Bearer <key>`, or none for
/// an empty key.
pub fn bearer_header(key: &str) -> (r: Option<String>)
    ensures
        key@.len() == 0 <==> r is None,
        r matches Some(h) ==> h@ == "Bearer "@ + key@,
{
    if key.is_empty() {
        None
    } else {
        Some(join2("Bearer ", key))
    }
}

/// Whether an HTTP status reports success (the 2xx range).
pub open spec fn is_success(status: u16) -> bool {
    200 <= status <= 299
}

/// The error for an answer with HTTP `status` to a request about `context`:
/// none on success, else the message of `api_error`.
pub fn response_error(status: u16, context: &str) -> (r: Option<String>)
    ensures
        is_success(status) <==> r is None,
        r matches Some(m) ==> m@ == api_error_text(status, context@),
{
    if 200 <= status && status <= 299 {
        None
    } else {
        Some(api_error(status, context))
    }
}

} // verus!
