//! Formatting of numbers, HTTP failures and error messages for display.

use vstd::prelude::*;
use vstd::utf8::{
    encode_scalar, encode_utf8, encode_utf8_valid_utf8, is_char_boundary,
    is_char_boundary_iff_not_is_continuation_byte, is_char_boundary_start_end_of_seq, valid_utf8,
    valid_utf8_split,
};

use crate::text::{
    digit_char, lemma_encode_utf8_concat,
    contains, decimal, occurs_at, digits, digits_of, join2, join3, owned, push_char, push_range, same_text,
    text_contains, usize_text,
};

verus! {

broadcast use vstd::string::group_string_axioms;

// ---------------------------------------------------------------------------
// Thousands separators
// ---------------------------------------------------------------------------

/// Digits with a `.` before every group of three counted from the right.
pub open spec fn group3(d: Seq<char>) -> Seq<char>
    decreases d.len(),
{
    if d.len() <= 3 {
        d
    } else {
        group3(d.take(d.len() - 3)) + seq!['.'] + d.skip(d.len() - 3)
    }
}

/// The decimal form of `n` with `.` between groups of three digits, the sign
/// (if any) in front: `1234567` reads `1.234.567`, `-1234` reads `-1.234`.
pub open spec fn thousands(n: int) -> Seq<char> {
    if n < 0 {
        seq!['-'] + group3(digits((-n) as nat))
    } else {
        group3(digits(n as nat))
    }
}

/// Appends `group3(d[..end])` to `out`.
fn push_grouped(out: &mut String, d: &Vec<char>, end: usize)
    requires
        end <= d.len(),
    ensures
        final(out)@ == old(out)@ + group3(d@.take(end as int)),
    decreases end,
{
    if end <= 3 {
        push_range(out, d, 0, end);
        assert(d@.subrange(0, end as int) == d@.take(end as int));
    } else {
        push_grouped(out, d, end - 3);
        push_char(out, '.');
        push_range(out, d, end - 3, end);
        assert(d@.take(end as int).take(end - 3) == d@.take(end - 3));
        assert(d@.take(end as int).skip(end - 3) == d@.subrange(end - 3, end as int));
    }
}

/// Formats `n` with `.` as the thousands separator.
pub fn fmt_thousands(n: i64) -> (s: String)
    ensures
        s@ == thousands(n as int),
{
    let mut out = String::new();
    let magnitude: u64 = if n < 0 {
        push_char(&mut out, '-');
        (0i128 - (n as i128)) as u64
    } else {
        n as u64
    };
    let d = digits_of(magnitude);
    push_grouped(&mut out, &d, d.len());
    assert(d@.take(d@.len() as int) == d@);
    out
}

/// The text without its `.` characters.
pub open spec fn drop_dots(s: Seq<char>) -> Seq<char>
    decreases s.len(),
{
    if s.len() == 0 {
        s
    } else if s.last() == '.' {
        drop_dots(s.drop_last())
    } else {
        drop_dots(s.drop_last()).push(s.last())
    }
}

/// Proof that dropping dots works piece by piece.
proof fn lemma_drop_dots_concat(a: Seq<char>, b: Seq<char>)
    ensures
        drop_dots(a + b) == drop_dots(a) + drop_dots(b),
    decreases b.len(),
{
    if b.len() == 0 {
        assert(a + b == a);
        assert(drop_dots(a) + drop_dots(b) == drop_dots(a));
    } else {
        assert((a + b).drop_last() == a + b.drop_last());
        assert((a + b).last() == b.last());
        lemma_drop_dots_concat(a, b.drop_last());
    }
}

/// Proof that decimal digits hold no dot.
proof fn lemma_digits_no_dots(n: nat)
    ensures
        drop_dots(digits(n)) == digits(n),
    decreases n,
{
    assert(digit_char(n % 10) != '.');
    assert(drop_dots(Seq::<char>::empty()) == Seq::<char>::empty());
    if n >= 10 {
        lemma_digits_no_dots(n / 10);
        assert(digits(n).drop_last() == digits(n / 10));
        assert(digits(n).last() == digit_char(n % 10));
    } else {
        assert(digits(n).drop_last() == Seq::<char>::empty());
        assert(digits(n).last() == digit_char(n));
        assert(Seq::<char>::empty().push(digit_char(n)) == digits(n));
    }
}

/// Proof that grouping only inserts dots.
proof fn lemma_group3_drop_dots(d: Seq<char>)
    ensures
        drop_dots(group3(d)) == drop_dots(d),
    decreases d.len(),
{
    if d.len() > 3 {
        let head = d.take(d.len() - 3);
        let tail = d.skip(d.len() - 3);
        lemma_group3_drop_dots(head);
        lemma_drop_dots_concat(group3(head) + seq!['.'], tail);
        lemma_drop_dots_concat(group3(head), seq!['.']);
        assert(seq!['.'].drop_last() == Seq::<char>::empty());
        assert(seq!['.'].last() == '.');
        assert(drop_dots(Seq::<char>::empty()) == Seq::<char>::empty());
        assert(drop_dots(seq!['.']) == Seq::<char>::empty());
        lemma_drop_dots_concat(head, tail);
        assert(head + tail == d);
    }
}

/// With the thousands separators taken out, a number formatted by
/// `fmt_thousands` reads as its plain decimal form.
pub proof fn lemma_thousands_is_decimal(n: int)
    ensures
        drop_dots(thousands(n)) == decimal(n),
{
    if n < 0 {
        let m = (-n) as nat;
        lemma_group3_drop_dots(digits(m));
        lemma_digits_no_dots(m);
        lemma_drop_dots_concat(seq!['-'], group3(digits(m)));
        assert(seq!['-'].drop_last() == Seq::<char>::empty());
        assert(seq!['-'].last() == '-');
        assert(drop_dots(Seq::<char>::empty()) == Seq::<char>::empty());
        assert(Seq::<char>::empty().push('-') == seq!['-']);
        assert(drop_dots(seq!['-']) == seq!['-']);
    } else {
        lemma_group3_drop_dots(digits(n as nat));
        lemma_digits_no_dots(n as nat);
    }
}

/// Whether the text has a `.` exactly where a multiple of four characters
/// remain to its end, and a length that is no multiple of four: a first group
/// of one to three characters, then groups of three, each after a `.`.
pub open spec fn grouped_by_three(g: Seq<char>) -> bool {
    &&& g.len() % 4 != 0
    &&& forall|i: int| 0 <= i < g.len() ==> ((#[trigger] g[i] == '.') == ((g.len() - i) % 4 == 0))
}

/// Proof that grouping a run of characters without dots puts the dots where
/// `grouped_by_three` says.
proof fn lemma_group3_grouped(d: Seq<char>)
    requires
        d.len() > 0,
        forall|i: int| 0 <= i < d.len() ==> #[trigger] d[i] != '.',
    ensures
        grouped_by_three(group3(d)),
    decreases d.len(),
{
    if d.len() > 3 {
        let head = d.take(d.len() - 3);
        let tail = d.skip(d.len() - 3);
        assert forall|i: int| 0 <= i < head.len() implies #[trigger] head[i] != '.' by {
            assert(head[i] == d[i]);
        }
        lemma_group3_grouped(head);
        let h = group3(head);
        let g = group3(d);
        assert(g == h + seq!['.'] + tail);
        assert forall|i: int| 0 <= i < g.len() implies ((#[trigger] g[i] == '.') == ((g.len() - i)
            % 4 == 0)) by {
            if i < h.len() {
                assert(g[i] == h[i]);
                assert((g.len() - i) % 4 == (h.len() - i) % 4);
            } else if i == h.len() {
            } else {
                assert(g[i] == d[i - h.len() - 1 + d.len() - 3]);
            }
        }
    }
}

/// Proof that decimal digits are at least one character, none a dot.
proof fn lemma_digits_chars(n: nat)
    ensures
        digits(n).len() > 0,
        forall|i: int| 0 <= i < digits(n).len() ==> #[trigger] digits(n)[i] != '.',
    decreases n,
{
    assert(digit_char(n % 10) != '.');
    if n >= 10 {
        lemma_digits_chars(n / 10);
        assert forall|i: int| 0 <= i < digits(n).len() implies #[trigger] digits(n)[i] != '.' by {
            if i < digits(n / 10).len() {
                assert(digits(n)[i] == digits(n / 10)[i]);
            }
        }
    } else {
        assert(digit_char(n) != '.');
    }
}

/// The groups of `fmt_thousands`: after the sign of a negative number, the
/// text is the number's decimal digits with a `.` exactly where a multiple of
/// four characters remain, so that the first group has one to three digits and
/// every later group three. Taking the dots out gives the decimal form.
pub proof fn lemma_thousands_groups(n: int)
    ensures
        ({
            let g = group3(digits(if n < 0 {
                (-n) as nat
            } else {
                n as nat
            }));
            &&& thousands(n) == (if n < 0 {
                seq!['-'] + g
            } else {
                g
            })
            &&& grouped_by_three(g)
            &&& drop_dots(thousands(n)) == decimal(n)
        }),
{
    let m: nat = if n < 0 {
        (-n) as nat
    } else {
        n as nat
    };
    lemma_digits_chars(m);
    lemma_group3_grouped(digits(m));
    lemma_thousands_is_decimal(n);
}

// ---------------------------------------------------------------------------
// HTTP failures
// ---------------------------------------------------------------------------

/// The message for a failed request with HTTP `status`, `context` naming what
/// was asked for.
pub open spec fn api_error_text(status: u16, context: Seq<char>) -> Seq<char> {
    if status == 401 {
        "Invalid API key (401) \u{2014} check your config.toml"@
    } else if status == 403 {
        "Access denied (403) \u{2014} check API key permissions"@
    } else if status == 404 {
        context + ": not found (404)"@
    } else if status == 429 {
        "Rate limited (429) \u{2014} try again in a moment"@
    } else {
        context + " failed (HTTP "@ + decimal(status as int) + ")"@
    }
}

/// The message shown for a request that failed with HTTP `status`.
pub fn api_error(status: u16, context: &str) -> (s: String)
    ensures
        s@ == api_error_text(status, context@),
{
    if status == 401 {
        owned("Invalid API key (401) \u{2014} check your config.toml")
    } else if status == 403 {
        owned("Access denied (403) \u{2014} check API key permissions")
    } else if status == 404 {
        join2(context, ": not found (404)")
    } else if status == 429 {
        owned("Rate limited (429) \u{2014} try again in a moment")
    } else {
        let code = usize_text(status as usize);
        let mut s = join3(context, " failed (HTTP ", code.as_str());
        s.append(")");
        s
    }
}

// ---------------------------------------------------------------------------
// Lower case
// ---------------------------------------------------------------------------

/// What `str::to_lowercase` returns for a text.
pub uninterp spec fn lowercase(s: Seq<char>) -> Seq<char>;

/// Whether every character of `s` is ASCII.
pub open spec fn all_ascii(s: Seq<char>) -> bool {
    forall|i: int| 0 <= i < s.len() ==> (#[trigger] s[i] as u32) < 128
}

/// The ASCII lower case of a character: `A` to `Z` become `a` to `z`, every
/// other character stays.
pub open spec fn ascii_lower_char(c: char) -> char {
    if 65 <= (c as u32) && (c as u32) <= 90 {
        ((c as u32) + 32) as char
    } else {
        c
    }
}

/// The ASCII lower case of a text, character by character.
pub open spec fn ascii_lower(s: Seq<char>) -> Seq<char> {
    s.map_values(|c: char| ascii_lower_char(c))
}

/// `str::to_lowercase`: the Unicode lower-case form of `s`, named `lowercase`.
/// Of an ASCII text it is the ASCII lower case: `A` to `Z` become `a` to `z`
/// and every other character stays.
#[verifier::external_body]
pub(crate) fn to_lowercase(s: &str) -> (r: String)
    ensures
        r@ == lowercase(s@),
        all_ascii(s@) ==> r@ == ascii_lower(s@),
{
    s.to_lowercase()
}

/// What `str::to_uppercase` returns for a text.
pub uninterp spec fn uppercase(s: Seq<char>) -> Seq<char>;

/// `str::to_uppercase`: the Unicode upper-case form of `s`, named `uppercase`.
#[verifier::external_body]
pub(crate) fn to_uppercase(s: &str) -> (r: String)
    ensures
        r@ == uppercase(s@),
{
    s.to_uppercase()
}

// ---------------------------------------------------------------------------
// Error messages for display
// ---------------------------------------------------------------------------

/// The short message shown for an error whose lower-case text is `lower`.
pub open spec fn clean_error_text(lower: Seq<char>) -> Seq<char> {
    if contains(lower, "401"@) || contains(lower, "unauthorized"@) {
        "Invalid API key. Check your config.toml"@
    } else if contains(lower, "403"@) || contains(lower, "forbidden"@) {
        "Access denied. Check API key permissions"@
    } else if contains(lower, "404"@) || contains(lower, "not found"@) {
        "Player not found"@
    } else if contains(lower, "429"@) || contains(lower, "rate limit"@) {
        "Too many requests. Wait a moment"@
    } else if contains(lower, "timeout"@) || contains(lower, "timed out"@) {
        "Request timed out. Check your connection"@
    } else if contains(lower, "connection"@) || contains(lower, "dns"@) || contains(
        lower,
        "resolve"@,
    ) {
        "Network error. Check your internet"@
    } else {
        "Something went wrong"@
    }
}

/// Maps a raw error text to a short message for the user.
pub fn clean_error_msg(raw: &str) -> (s: String)
    ensures
        s@ == clean_error_text(lowercase(raw@)),
        all_ascii(raw@) ==> s@ == clean_error_text(ascii_lower(raw@)),
{
    let lower = to_lowercase(raw);
    let l = lower.as_str();
    if text_contains(l, "401") || text_contains(l, "unauthorized") {
        owned("Invalid API key. Check your config.toml")
    } else if text_contains(l, "403") || text_contains(l, "forbidden") {
        owned("Access denied. Check API key permissions")
    } else if text_contains(l, "404") || text_contains(l, "not found") {
        owned("Player not found")
    } else if text_contains(l, "429") || text_contains(l, "rate limit") {
        owned("Too many requests. Wait a moment")
    } else if text_contains(l, "timeout") || text_contains(l, "timed out") {
        owned("Request timed out. Check your connection")
    } else if text_contains(l, "connection") || text_contains(l, "dns") || text_contains(
        l,
        "resolve",
    ) {
        owned("Network error. Check your internet")
    } else {
        owned("Something went wrong")
    }
}

/// Proof that a text lacking one of `n`'s characters does not contain `n`.
proof fn lemma_missing_char(s: Seq<char>, n: Seq<char>, k: int)
    requires
        0 <= k < n.len(),
        forall|i: int| 0 <= i < s.len() ==> s[i] != n[k],
    ensures
        !contains(s, n),
{
    if contains(s, n) {
        let i = choose|i: int| occurs_at(s, n, i);
        assert(s.subrange(i, i + n.len())[k] == s[i + k]);
    }
}

/// Proof that a text in which two neighbouring characters of `n` never follow
/// each other does not contain `n`.
proof fn lemma_missing_pair(s: Seq<char>, n: Seq<char>, k: int)
    requires
        0 <= k < n.len() - 1,
        forall|i: int| 0 <= i < s.len() - 1 ==> !(#[trigger] s[i] == n[k] && s[i + 1] == n[k + 1]),
    ensures
        !contains(s, n),
{
    if contains(s, n) {
        let i = choose|i: int| occurs_at(s, n, i);
        assert(s.subrange(i, i + n.len())[k] == s[i + k]);
        assert(s.subrange(i, i + n.len())[k + 1] == s[i + k + 1]);
    }
}

/// Proof that the ASCII lower case goes piece by piece.
proof fn lemma_ascii_lower_concat(a: Seq<char>, b: Seq<char>)
    ensures
        ascii_lower(a + b) == ascii_lower(a) + ascii_lower(b),
        all_ascii(a) && all_ascii(b) ==> all_ascii(a + b),
{
    assert(ascii_lower(a + b) =~= ascii_lower(a) + ascii_lower(b));
    if all_ascii(a) && all_ascii(b) {
        assert forall|i: int| 0 <= i < (a + b).len() implies (#[trigger] (a + b)[i] as u32) < 128 by {
            if i >= a.len() {
                assert((a + b)[i] == b[i - a.len()]);
            }
        }
    }
}

/// Proof that a text made of two texts without `c` has no `c`.
proof fn lemma_concat_lacks(a: Seq<char>, b: Seq<char>, c: char)
    requires
        forall|i: int| 0 <= i < a.len() ==> a[i] != c,
        forall|i: int| 0 <= i < b.len() ==> b[i] != c,
    ensures
        forall|i: int| 0 <= i < (a + b).len() ==> (a + b)[i] != c,
{
    assert forall|i: int| 0 <= i < (a + b).len() implies (a + b)[i] != c by {
        if i >= a.len() {
            assert((a + b)[i] == b[i - a.len()]);
        }
    }
}

/// Proof of the characters the request contexts lack.
proof fn lemma_context_chars(ctx: Seq<char>)
    requires
        ctx == "search"@ || ctx == "lifetime stats"@ || ctx == "match history"@,
    ensures
        forall|i: int| 0 <= i < ctx.len() ==> ctx[i] != '1' && ctx[i] != 'z' && ctx[i] != '3'
            && ctx[i] != 'b' && ctx[i] != '4' && ctx[i] != 'n' && ctx[i] != '9' && ctx[i] != 'u'
            && ctx[i] != 'v',
        ascii_lower(ctx) == ctx,
        all_ascii(ctx),
{
    reveal_strlit("search");
    reveal_strlit("lifetime stats");
    reveal_strlit("match history");
    assert(ascii_lower(ctx) =~= ctx);
}

/// Cleaning the message of a failed request: for the contexts the requests
/// name (`search`, `lifetime stats`, `match history`), the message of a 404
/// cleans to `Player not found` and that of a 500 to `Something went wrong`.
/// Both messages are ASCII, so their lower case is the ASCII one (see
/// `clean_error_msg`).
pub proof fn lemma_api_errors_cleaned(status: u16, ctx: Seq<char>)
    requires
        status == 404 || status == 500,
        ctx == "search"@ || ctx == "lifetime stats"@ || ctx == "match history"@,
    ensures
        all_ascii(api_error_text(status, ctx)),
        clean_error_text(ascii_lower(api_error_text(status, ctx))) == if status == 404 {
            "Player not found"@
        } else {
            "Something went wrong"@
        },
{
    reveal_strlit(": not found (404)");
    reveal_strlit(" failed (HTTP ");
    reveal_strlit(" failed (http ");
    reveal_strlit(")");
    reveal_strlit("500");
    reveal_strlit("401");
    reveal_strlit("unauthorized");
    reveal_strlit("403");
    reveal_strlit("forbidden");
    reveal_strlit("404");
    reveal_strlit("not found");
    reveal_strlit("429");
    reveal_strlit("rate limit");
    reveal_strlit("timeout");
    reveal_strlit("timed out");
    reveal_strlit("connection");
    reveal_strlit("dns");
    reveal_strlit("resolve");
    lemma_context_chars(ctx);
    let m = api_error_text(status, ctx);
    if status == 404 {
        let tail = ": not found (404)"@;
        assert(ascii_lower(tail) =~= tail);
        assert(all_ascii(tail));
        lemma_ascii_lower_concat(ctx, tail);
        let low = ctx + tail;
        assert(ascii_lower(m) == low);
        assert(forall|i: int| 0 <= i < tail.len() ==> tail[i] != '1' && tail[i] != 'z'
            && tail[i] != '3' && tail[i] != 'b');
        lemma_concat_lacks(ctx, tail, '1');
        lemma_concat_lacks(ctx, tail, 'z');
        lemma_concat_lacks(ctx, tail, '3');
        lemma_concat_lacks(ctx, tail, 'b');
        assert("401"@[2] == '1' && "unauthorized"@[9] == 'z' && "403"@[2] == '3'
            && "forbidden"@[3] == 'b');
        lemma_missing_char(low, "401"@, 2);
        lemma_missing_char(low, "unauthorized"@, 9);
        lemma_missing_char(low, "403"@, 2);
        lemma_missing_char(low, "forbidden"@, 3);
        assert(low.subrange(low.len() - 4, low.len() - 1) =~= "404"@);
        assert(occurs_at(low, "404"@, low.len() - 4));
    } else {
        let digits500 = decimal(500);
        assert(digits(5) == seq!['5']);
        assert(digits(50) == seq!['5', '0']);
        assert(digits(500) == seq!['5', '0', '0']);
        assert(digits500 =~= "500"@);
        let mid = " failed (HTTP "@;
        let close = ")"@;
        assert(ascii_lower(mid) =~= " failed (http "@);
        assert(ascii_lower(digits500) =~= digits500);
        assert(ascii_lower(close) =~= close);
        assert(all_ascii(mid) && all_ascii(digits500) && all_ascii(close));
        lemma_ascii_lower_concat(ctx, mid);
        lemma_ascii_lower_concat(ctx + mid, digits500);
        lemma_ascii_lower_concat(ctx + mid + digits500, close);
        let tail = " failed (http 500)"@;
        reveal_strlit(" failed (http 500)");
        assert(" failed (http "@ + "500"@ + ")"@ =~= tail);
        let low = ctx + tail;
        assert(ctx + " failed (http "@ + "500"@ + ")"@ =~= low);
        assert(ascii_lower(m) == low);
        assert(forall|i: int| 0 <= i < tail.len() ==> tail[i] != '1' && tail[i] != 'z'
            && tail[i] != '3' && tail[i] != 'b' && tail[i] != '4' && tail[i] != 'n' && tail[i]
            != '9' && tail[i] != 'u' && tail[i] != 'v');
        lemma_concat_lacks(ctx, tail, '1');
        lemma_concat_lacks(ctx, tail, 'z');
        lemma_concat_lacks(ctx, tail, '3');
        lemma_concat_lacks(ctx, tail, 'b');
        lemma_concat_lacks(ctx, tail, '4');
        lemma_concat_lacks(ctx, tail, 'n');
        lemma_concat_lacks(ctx, tail, '9');
        lemma_concat_lacks(ctx, tail, 'u');
        lemma_concat_lacks(ctx, tail, 'v');
        assert("401"@[2] == '1' && "unauthorized"@[9] == 'z' && "403"@[2] == '3'
            && "forbidden"@[3] == 'b' && "404"@[0] == '4' && "not found"@[0] == 'n' && "429"@[2]
            == '9' && "timeout"@[5] == 'u' && "timed out"@[7] == 'u' && "connection"@[2] == 'n'
            && "dns"@[1] == 'n' && "resolve"@[5] == 'v');
        lemma_missing_char(low, "401"@, 2);
        lemma_missing_char(low, "unauthorized"@, 9);
        lemma_missing_char(low, "403"@, 2);
        lemma_missing_char(low, "forbidden"@, 3);
        lemma_missing_char(low, "404"@, 0);
        lemma_missing_char(low, "not found"@, 0);
        lemma_missing_char(low, "429"@, 2);
        lemma_missing_char(low, "timeout"@, 5);
        lemma_missing_char(low, "timed out"@, 7);
        lemma_missing_char(low, "connection"@, 2);
        lemma_missing_char(low, "dns"@, 1);
        lemma_missing_char(low, "resolve"@, 5);
        reveal_strlit("search");
        reveal_strlit("lifetime stats");
        reveal_strlit("match history");
        if ctx == "search"@ {
            let l = "search"@ + tail;
            assert(forall|i: int| 0 <= i < l.len() ==> l[i] != 'm');
            assert("rate limit"@[7] == 'm');
            lemma_missing_char(low, "rate limit"@, 7);
        } else if ctx == "lifetime stats"@ {
            let l = "lifetime stats"@ + tail;
            assert(forall|i: int| 0 <= i < l.len() ==> l[i] != 'r');
            assert("rate limit"@[0] == 'r');
            lemma_missing_char(low, "rate limit"@, 0);
        } else {
            let l = "match history"@ + tail;
            assert(forall|i: int| 0 <= i < l.len() - 1 ==> !(#[trigger] l[i] == 'r' && l[i + 1]
                == 'a'));
            assert("rate limit"@[0] == 'r' && "rate limit"@[1] == 'a');
            lemma_missing_pair(low, "rate limit"@, 0);
        }
    }
}

// ---------------------------------------------------------------------------
// Keys of match statistics
// ---------------------------------------------------------------------------

/// Whether the lower-case key `lower` names a time or a date.
pub open spec fn timestamp_key_text(lower: Seq<char>) -> bool {
    ||| contains(lower, "time"@)
    ||| contains(lower, "date"@)
    ||| contains(lower, "_at"@)
    ||| contains(lower, "created"@)
    ||| contains(lower, "updated"@)
    ||| contains(lower, "started"@)
    ||| contains(lower, "finished"@)
    ||| contains(lower, "duration"@)
}

/// Whether a statistic's key names a time or a date.
pub fn is_timestamp_key(key: &str) -> (r: bool)
    ensures
        r == timestamp_key_text(lowercase(key@)),
{
    let lower = to_lowercase(key);
    let l = lower.as_str();
    text_contains(l, "time") || text_contains(l, "date") || text_contains(l, "_at")
        || text_contains(l, "created") || text_contains(l, "updated") || text_contains(
        l,
        "started",
    ) || text_contains(l, "finished") || text_contains(l, "duration")
}

/// The number of keys that have a fixed place in the match details.
pub const PRIORITY_KEYS: usize = 25;

/// The key at place `i` of the match details.
pub open spec fn priority_key(i: int) -> Seq<char> {
    if i == 0 {
        "Map"@
    } else if i == 1 {
        "Score"@
    } else if i == 2 {
        "Result"@
    } else if i == 3 {
        "Kills"@
    } else if i == 4 {
        "Deaths"@
    } else if i == 5 {
        "Assists"@
    } else if i == 6 {
        "K/D Ratio"@
    } else if i == 7 {
        "K/R Ratio"@
    } else if i == 8 {
        "Headshots"@
    } else if i == 9 {
        "Headshots %"@
    } else if i == 10 {
        "MVPs"@
    } else if i == 11 {
        "Triple Kills"@
    } else if i == 12 {
        "Quadro Kills"@
    } else if i == 13 {
        "Penta Kills"@
    } else if i == 14 {
        "ADR"@
    } else if i == 15 {
        "Damage"@
    } else if i == 16 {
        "Utility Damage"@
    } else if i == 17 {
        "Flashbangs"@
    } else if i == 18 {
        "Entry Count"@
    } else if i == 19 {
        "Entry Wins"@
    } else if i == 20 {
        "First Kills"@
    } else if i == 21 {
        "Clutches"@
    } else if i == 22 {
        "Team"@
    } else if i == 23 {
        "Region"@
    } else {
        "Match ID"@
    }
}

fn priority_key_text(i: usize) -> (s: &'static str)
    requires
        i < PRIORITY_KEYS,
    ensures
        s@ == priority_key(i as int),
{
    if i == 0 {
        "Map"
    } else if i == 1 {
        "Score"
    } else if i == 2 {
        "Result"
    } else if i == 3 {
        "Kills"
    } else if i == 4 {
        "Deaths"
    } else if i == 5 {
        "Assists"
    } else if i == 6 {
        "K/D Ratio"
    } else if i == 7 {
        "K/R Ratio"
    } else if i == 8 {
        "Headshots"
    } else if i == 9 {
        "Headshots %"
    } else if i == 10 {
        "MVPs"
    } else if i == 11 {
        "Triple Kills"
    } else if i == 12 {
        "Quadro Kills"
    } else if i == 13 {
        "Penta Kills"
    } else if i == 14 {
        "ADR"
    } else if i == 15 {
        "Damage"
    } else if i == 16 {
        "Utility Damage"
    } else if i == 17 {
        "Flashbangs"
    } else if i == 18 {
        "Entry Count"
    } else if i == 19 {
        "Entry Wins"
    } else if i == 20 {
        "First Kills"
    } else if i == 21 {
        "Clutches"
    } else if i == 22 {
        "Team"
    } else if i == 23 {
        "Region"
    } else {
        "Match ID"
    }
}

/// The sum of the bytes `b`.
pub open spec fn byte_sum(b: Seq<u8>) -> nat
    decreases b.len(),
{
    if b.len() == 0 {
        0
    } else {
        byte_sum(b.drop_last()) + b.last() as nat
    }
}

/// The place of `key` among the fixed keys, if it is one of them.
pub open spec fn priority_index(key: Seq<char>) -> Option<int> {
    if exists|i: int| 0 <= i < PRIORITY_KEYS && priority_key(i) == key {
        Some(choose|i: int| 0 <= i < PRIORITY_KEYS && priority_key(i) == key)
    } else {
        None
    }
}

/// The sort rank of a key in the match details: its place among the fixed keys,
/// or else the count of fixed keys plus the sum of the key's UTF-8 bytes taken
/// modulo 2^32.
pub open spec fn key_order(key: Seq<char>) -> int {
    match priority_index(key) {
        Some(i) => i,
        None => PRIORITY_KEYS + byte_sum(encode_utf8(key)) % 0x1_0000_0000,
    }
}

/// Proof that the fixed keys are pairwise different.
pub proof fn lemma_priority_keys_distinct(i: int, j: int)
    requires
        0 <= i < PRIORITY_KEYS,
        0 <= j < PRIORITY_KEYS,
        i != j,
    ensures
        priority_key(i) != priority_key(j),
{
    reveal_strlit("Map");
    reveal_strlit("Score");
    reveal_strlit("Result");
    reveal_strlit("Kills");
    reveal_strlit("Deaths");
    reveal_strlit("Assists");
    reveal_strlit("K/D Ratio");
    reveal_strlit("K/R Ratio");
    reveal_strlit("Headshots");
    reveal_strlit("Headshots %");
    reveal_strlit("MVPs");
    reveal_strlit("Triple Kills");
    reveal_strlit("Quadro Kills");
    reveal_strlit("Penta Kills");
    reveal_strlit("ADR");
    reveal_strlit("Damage");
    reveal_strlit("Utility Damage");
    reveal_strlit("Flashbangs");
    reveal_strlit("Entry Count");
    reveal_strlit("Entry Wins");
    reveal_strlit("First Kills");
    reveal_strlit("Clutches");
    reveal_strlit("Team");
    reveal_strlit("Region");
    reveal_strlit("Match ID");
    if priority_key(i).len() == priority_key(j).len() {
        assert(priority_key(i)[0] != priority_key(j)[0] || priority_key(i)[1] != priority_key(
            j,
        )[1] || priority_key(i)[2] != priority_key(j)[2] || priority_key(i)[
        priority_key(i).len() - 1] != priority_key(j)[priority_key(j).len() - 1]);
    }
}

/// The known fields rank before all others: a field's rank is below the
/// number of known fields exactly when it is one of them.
pub proof fn lemma_known_fields_first(key: Seq<char>)
    ensures
        (key_order(key) < PRIORITY_KEYS) == (priority_index(key) is Some),
        priority_index(key) matches Some(i) ==> 0 <= i < PRIORITY_KEYS && priority_key(i) == key,
{
}

/// Proof that the bytes sum to at most 255 each.
proof fn lemma_byte_sum_bound(b: Seq<u8>)
    ensures
        byte_sum(b) <= 255 * b.len(),
    decreases b.len(),
{
    if b.len() > 0 {
        lemma_byte_sum_bound(b.drop_last());
    }
}

/// The order of the fields in the match details: the known fields come first,
/// in the order of their list, each ranked by its place in it, and every other
/// field after all of them. A field name of at most 16 million bytes can always
/// be ranked, by the plain sum of its bytes.
pub proof fn lemma_field_order(a: Seq<char>, b: Seq<char>)
    ensures
        priority_index(a) matches Some(i) ==> key_order(a) == i && priority_key(i) == a,
        priority_index(a) is Some && priority_index(b) is Some ==> ((key_order(a) < key_order(b))
            == (priority_index(a)->0 < priority_index(b)->0)),
        priority_index(a) is Some && priority_index(b) is None ==> key_order(a) < key_order(b),
        encode_utf8(b).len() <= 16_000_000 ==> key_rank_fits(b) && (priority_index(b) is None
            ==> key_order(b) == PRIORITY_KEYS + byte_sum(encode_utf8(b))),
{
    lemma_known_fields_first(a);
    lemma_known_fields_first(b);
    lemma_byte_sum_bound(encode_utf8(b));
    if encode_utf8(b).len() <= 16_000_000 {
        assert(byte_sum(encode_utf8(b)) <= 255 * 16_000_000) by (nonlinear_arith)
            requires
                byte_sum(encode_utf8(b)) <= 255 * encode_utf8(b).len(),
                encode_utf8(b).len() <= 16_000_000,
        ;
        assert(byte_sum(encode_utf8(b)) % 0x1_0000_0000 == byte_sum(encode_utf8(b)));
    }
}

/// Whether a field name can be ranked within a `u32`: a name outside the list
/// of known fields is ranked after them by the wrapping sum of its bytes, and
/// that rank must not pass `u32::MAX`.
pub open spec fn key_rank_fits(key: Seq<char>) -> bool {
    priority_index(key) is None ==> PRIORITY_KEYS + byte_sum(encode_utf8(key)) % 0x1_0000_0000
        <= u32::MAX
}

/// The place of `key` in the list of known fields, if it is there.
fn priority_position(key: &str) -> (r: Option<u32>)
    ensures
        match priority_index(key@) {
            Some(i) => r == Some(i as u32),
            None => r is None,
        },
{
    let mut i: usize = 0;
    while i < PRIORITY_KEYS
        invariant
            i <= PRIORITY_KEYS,
            forall|k: int| 0 <= k < i ==> priority_key(k) != key@,
        decreases PRIORITY_KEYS - i,
    {
        if same_text(priority_key_text(i), key) {
            proof {
                assert(exists|k: int| 0 <= k < PRIORITY_KEYS && priority_key(k) == key@);
                let c = choose|k: int| 0 <= k < PRIORITY_KEYS && priority_key(k) == key@;
                if c != i {
                    lemma_priority_keys_distinct(c, i as int);
                }
            }
            return Some(i as u32);
        }
        i = i + 1;
    }
    None
}

/// The sum of the UTF-8 bytes of `key`, wrapping around at 2^32.
fn wrapped_byte_sum(key: &str) -> (r: u32)
    ensures
        r == byte_sum(encode_utf8(key@)) % 0x1_0000_0000,
{
    let bytes = key.as_bytes();
    let mut acc: u32 = 0;
    let mut j: usize = 0;
    while j < bytes.len()
        invariant
            j <= bytes@.len(),
            bytes@ == encode_utf8(key@),
            acc == byte_sum(bytes@.take(j as int)) % 0x1_0000_0000,
        decreases bytes.len() - j,
    {
        assert(bytes@.take(j + 1).drop_last() == bytes@.take(j as int));
        acc = acc.wrapping_add(bytes[j] as u32);
        j = j + 1;
    }
    assert(bytes@.take(j as int) == bytes@);
    acc
}

/// Whether `key` can be ranked (see `key_rank_fits`).
pub fn rank_fits(key: &str) -> (r: bool)
    ensures
        r == key_rank_fits(key@),
{
    match priority_position(key) {
        Some(_) => true,
        None => wrapped_byte_sum(key) <= 0xFFFF_FFFF - 25,
    }
}

/// The rank of a field in the match details: its place among the known fields,
/// or after all of them by the wrapping sum of its bytes.
pub fn match_key_order(key: &str) -> (r: u32)
    requires
        key_rank_fits(key@),
    ensures
        r == key_order(key@),
{
    match priority_position(key) {
        Some(i) => i,
        None => 25 + wrapped_byte_sum(key),
    }
}

// ---------------------------------------------------------------------------
// Timestamps
// ---------------------------------------------------------------------------

/// Proof that a one-character ASCII text is encoded as its code.
proof fn lemma_encode_ascii_char(c: char, code: u8)
    requires
        c as u32 == code as u32,
        code < 0x80,
    ensures
        encode_utf8(seq![c]) == seq![code],
{
    let u = c as u32;
    assert(u & 0x7F == u) by (bit_vector)
        requires
            u < 0x80,
    ;
    assert(seq![c].drop_first() == Seq::<char>::empty());
    assert(encode_utf8(seq![c]) == encode_scalar(u) + encode_utf8(Seq::<char>::empty()));
}

/// Proof that a character boundary of `b` at or after `from` is one of the bytes
/// from `from` on, when `from` is a boundary too.
proof fn lemma_boundary_in_tail(b: Seq<u8>, from: int, to: int)
    requires
        valid_utf8(b),
        0 <= from <= to <= b.len(),
        is_char_boundary(b, from),
        is_char_boundary(b, to),
    ensures
        valid_utf8(b.subrange(from, b.len() as int)),
        is_char_boundary(b.subrange(from, b.len() as int), to - from),
{
    let t = b.subrange(from, b.len() as int);
    valid_utf8_split(b, from);
    is_char_boundary_start_end_of_seq(t);
    if to - from > 0 && to < b.len() {
        is_char_boundary_iff_not_is_continuation_byte(b, to);
        is_char_boundary_iff_not_is_continuation_byte(t, to - from);
        assert(t[to - from] == b[to]);
    } else if to == b.len() {
        assert(t.len() == to - from);
    }
}

/// The part of `s` between the byte offsets `from` and `to`.
fn byte_slice(s: &str, from: usize, to: usize) -> (r: &str)
    requires
        from <= to <= encode_utf8(s@).len(),
        is_char_boundary(encode_utf8(s@), from as int),
        is_char_boundary(encode_utf8(s@), to as int),
    ensures
        encode_utf8(r@) == encode_utf8(s@).subrange(from as int, to as int),
{
    proof {
        encode_utf8_valid_utf8(s@);
        lemma_boundary_in_tail(encode_utf8(s@), from as int, to as int);
    }
    let (_, tail) = s.split_at(from);
    assert(encode_utf8(tail@) == encode_utf8(s@).subrange(from as int, encode_utf8(s@).len() as int));
    let (mid, _) = tail.split_at(to - from);
    assert(encode_utf8(mid@) == encode_utf8(s@).subrange(from as int, to as int));
    mid
}

/// Whether the bytes `b` start like an ISO 8601 date (`YYYY-MM-DD`, at least 16
/// bytes long).
pub open spec fn is_timestamp_shape(b: Seq<u8>) -> bool {
    b.len() >= 16 && b[4] == 0x2D && b[7] == 0x2D
}

/// Whether a date is followed by a time (a `T` or a space after the day).
pub open spec fn has_time_part(b: Seq<u8>) -> bool {
    b[10] == 0x54 || b[10] == 0x20
}

/// The bytes of the date `YYYY-MM-DD[T ]hh:mm...` written as `DD.MM.YYYY hh:mm`
/// (the time only when a `T` or a space follows the day).
pub open spec fn timestamp_display(b: Seq<u8>) -> Seq<u8> {
    b.subrange(8, 10) + seq![0x2Eu8] + b.subrange(5, 7) + seq![0x2Eu8] + b.subrange(0, 4) + if has_time_part(b) {
        seq![0x20u8] + b.subrange(11, 16)
    } else {
        Seq::<u8>::empty()
    }
}

/// Where a timestamp is cut into day, month, year and time, the cuts fall
/// between characters.
pub open spec fn timestamp_cuts_ok(b: Seq<u8>) -> bool {
    &&& is_char_boundary(b, 4)
    &&& is_char_boundary(b, 5)
    &&& is_char_boundary(b, 7)
    &&& is_char_boundary(b, 8)
    &&& is_char_boundary(b, 10)
    &&& has_time_part(b) ==> is_char_boundary(b, 11) && is_char_boundary(b, 16)
}

/// Writes an ISO 8601 timestamp as `DD.MM.YYYY hh:mm`; `None` when `val` does not
/// start like a date.
pub fn fmt_timestamp(val: &str) -> (r: Option<String>)
    requires
        is_timestamp_shape(encode_utf8(val@)) ==> timestamp_cuts_ok(encode_utf8(val@)),
    ensures
        is_timestamp_shape(encode_utf8(val@)) == r is Some,
        r matches Some(t) ==> encode_utf8(t@) == timestamp_display(encode_utf8(val@)),
{
    let b = val.as_bytes();
    if !(b.len() >= 16 && b[4] == 0x2D && b[7] == 0x2D) {
        return None;
    }
    let ghost bs = encode_utf8(val@);
    proof {
        encode_utf8_valid_utf8(val@);
        is_char_boundary_start_end_of_seq(bs);
    }
    proof {
        reveal_strlit(".");
        reveal_strlit(" ");
        lemma_encode_ascii_char('.', 46);
        lemma_encode_ascii_char(' ', 32);
        assert("."@ == seq!['.']);
        assert(" "@ == seq![' ']);
    }
    let day = byte_slice(val, 8, 10);
    let month = byte_slice(val, 5, 7);
    let year = byte_slice(val, 0, 4);
    let has_time = b[10] == 0x54 || b[10] == 0x20;
    let time_part = if has_time {
        let time = byte_slice(val, 11, 16);
        proof {
            lemma_encode_utf8_concat(" "@, time@);
        }
        join2(" ", time)
    } else {
        String::new()
    };
    assert(encode_utf8(time_part@) == if has_time_part(bs) {
        seq![0x20u8] + bs.subrange(11, 16)
    } else {
        Seq::<u8>::empty()
    });
    let mut out = owned(day);
    out.append(".");
    out.append(month);
    out.append(".");
    out.append(year);
    out.append(time_part.as_str());
    proof {
        lemma_encode_utf8_concat(day@, "."@);
        lemma_encode_utf8_concat(day@ + "."@, month@);
        lemma_encode_utf8_concat(day@ + "."@ + month@, "."@);
        lemma_encode_utf8_concat(day@ + "."@ + month@ + "."@, year@);
        lemma_encode_utf8_concat(day@ + "."@ + month@ + "."@ + year@, time_part@);
    }
    Some(out)
}

} // verus!
