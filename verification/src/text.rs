//! Character-level helpers shared by the parsers and formatters.
//!
//! Strings are handled as sequences of `char`s: `chars_of` turns a `str` into a
//! `Vec<char>` and `string_of` builds a `String` back.

use vstd::prelude::*;
use vstd::std_specs::iter::IteratorSpec;
use vstd::utf8::{encode_scalar, encode_utf8};

verus! {

broadcast use vstd::string::group_string_axioms;

// ---------------------------------------------------------------------------
// Specifications
// ---------------------------------------------------------------------------

/// Unicode `White_Space`, the property that `char::is_whitespace` and
/// `str::trim` use.
pub open spec fn is_ws(c: char) -> bool {
    let u = c as u32;
    ||| 0x09 <= u <= 0x0D
    ||| u == 0x20
    ||| u == 0x85
    ||| u == 0xA0
    ||| u == 0x1680
    ||| 0x2000 <= u <= 0x200A
    ||| u == 0x2028
    ||| u == 0x2029
    ||| u == 0x202F
    ||| u == 0x205F
    ||| u == 0x3000
}

/// `s` without its leading white space.
pub open spec fn trim_start(s: Seq<char>) -> Seq<char>
    decreases s.len(),
{
    if s.len() > 0 && is_ws(s[0]) {
        trim_start(s.drop_first())
    } else {
        s
    }
}

/// `s` without its trailing white space.
pub open spec fn trim_end(s: Seq<char>) -> Seq<char>
    decreases s.len(),
{
    if s.len() > 0 && is_ws(s.last()) {
        trim_end(s.drop_last())
    } else {
        s
    }
}

/// `str::trim`: leading and trailing white space removed.
pub open spec fn trim(s: Seq<char>) -> Seq<char> {
    trim_end(trim_start(s))
}

/// `s` without its leading copies of `c`.
pub open spec fn strip_lead(s: Seq<char>, c: char) -> Seq<char>
    decreases s.len(),
{
    if s.len() > 0 && s[0] == c {
        strip_lead(s.drop_first(), c)
    } else {
        s
    }
}

/// `s` without its trailing copies of `c`.
pub open spec fn strip_trail(s: Seq<char>, c: char) -> Seq<char>
    decreases s.len(),
{
    if s.len() > 0 && s.last() == c {
        strip_trail(s.drop_last(), c)
    } else {
        s
    }
}

/// `str::trim_matches(c)` for a single character `c`.
pub open spec fn trim_char(s: Seq<char>, c: char) -> Seq<char> {
    strip_trail(strip_lead(s, c), c)
}

/// Index of the first `c` in `s`, or `s.len()` when there is none.
pub open spec fn find_char(s: Seq<char>, c: char) -> nat
    decreases s.len(),
{
    if s.len() == 0 {
        0
    } else if s[0] == c {
        0
    } else {
        1 + find_char(s.drop_first(), c)
    }
}

/// `s` starts with `p`.
pub open spec fn starts_with(s: Seq<char>, p: Seq<char>) -> bool {
    p.len() <= s.len() && s.take(p.len() as int) == p
}

/// `s` ends with `p`.
pub open spec fn ends_with(s: Seq<char>, p: Seq<char>) -> bool {
    p.len() <= s.len() && s.skip(s.len() - p.len()) == p
}

/// `needle` occurs in `s` at index `i`.
pub open spec fn occurs_at(s: Seq<char>, needle: Seq<char>, i: int) -> bool {
    0 <= i && i + needle.len() <= s.len() && s.subrange(i, i + needle.len()) == needle
}

/// `needle` occurs somewhere in `s` (`str::contains`).
pub open spec fn contains(s: Seq<char>, needle: Seq<char>) -> bool {
    exists|i: int| occurs_at(s, needle, i)
}

/// One line as `str::lines` yields it: the text before the first `\n`, with a
/// `\r` in front of that `\n` removed.
pub open spec fn first_line(s: Seq<char>) -> Seq<char> {
    let p = find_char(s, '\n');
    if p < s.len() && p > 0 && s[p - 1] == '\r' {
        s.take(p - 1)
    } else {
        s.take(p as int)
    }
}

/// `str::lines`: the text split at each `\n` (a `\r` right before it is part of
/// the line ending); a final line ending adds no empty line.
pub open spec fn lines(s: Seq<char>) -> Seq<Seq<char>>
    decreases s.len(),
{
    if s.len() == 0 {
        seq![]
    } else {
        let p = find_char(s, '\n');
        if p < s.len() {
            seq![first_line(s)] + lines(s.skip((p + 1) as int))
        } else {
            seq![s]
        }
    }
}

/// The decimal digits of `n`.
pub open spec fn digits(n: nat) -> Seq<char>
    decreases n,
{
    if n < 10 {
        seq![digit_char(n)]
    } else {
        digits(n / 10).push(digit_char(n % 10))
    }
}

/// The character of a decimal digit.
pub open spec fn digit_char(d: nat) -> char {
    if d == 0 {
        '0'
    } else if d == 1 {
        '1'
    } else if d == 2 {
        '2'
    } else if d == 3 {
        '3'
    } else if d == 4 {
        '4'
    } else if d == 5 {
        '5'
    } else if d == 6 {
        '6'
    } else if d == 7 {
        '7'
    } else if d == 8 {
        '8'
    } else {
        '9'
    }
}

/// The decimal form of `n` as `to_string` writes it.
pub open spec fn decimal(n: int) -> Seq<char> {
    if n < 0 {
        seq!['-'] + digits((-n) as nat)
    } else {
        digits(n as nat)
    }
}

// ---------------------------------------------------------------------------
// Conversions between strings and character vectors
// ---------------------------------------------------------------------------

/// Appends one character to a string (`String::push`): the string afterwards is
/// the old one with `c` at its end.
#[verifier::external_body]
pub(crate) fn push_char(s: &mut String, c: char)
    ensures
        final(s)@ == old(s)@.push(c),
{
    s.push(c);
}

/// The characters of `s`, in order.
pub fn chars_of(s: &str) -> (v: Vec<char>)
    ensures
        v@ == s@,
{
    let mut v: Vec<char> = Vec::new();
    for c in it: s.chars()
        invariant
            v@ == it.seq().take(it.index() as int),
    {
        v.push(c);
    }
    v
}

/// Appends `v[from..to]` to `out`.
pub fn push_range(out: &mut String, v: &Vec<char>, from: usize, to: usize)
    requires
        from <= to <= v.len(),
    ensures
        final(out)@ == old(out)@ + v@.subrange(from as int, to as int),
{
    let mut i = from;
    while i < to
        invariant
            from <= i <= to <= v.len(),
            out@ == old(out)@ + v@.subrange(from as int, i as int),
        decreases to - i,
    {
        push_char(out, v[i]);
        i = i + 1;
        assert(v@.subrange(from as int, i as int) == v@.subrange(from as int, i - 1).push(
            v@[i - 1],
        ));
    }
}

/// A new string holding `v[from..to]`.
pub fn string_of(v: &Vec<char>, from: usize, to: usize) -> (s: String)
    requires
        from <= to <= v.len(),
    ensures
        s@ == v@.subrange(from as int, to as int),
{
    let mut s = String::new();
    push_range(&mut s, v, from, to);
    s
}

/// A new string holding the text of `s`.
pub fn owned(s: &str) -> (r: String)
    ensures
        r@ == s@,
{
    s.to_owned()
}

/// `a` followed by `b`.
pub fn join2(a: &str, b: &str) -> (r: String)
    ensures
        r@ == a@ + b@,
{
    let mut r = a.to_owned();
    r.append(b);
    r
}

/// `a`, `b` and `c` one after another.
pub fn join3(a: &str, b: &str, c: &str) -> (r: String)
    ensures
        r@ == a@ + b@ + c@,
{
    let mut r = a.to_owned();
    r.append(b);
    r.append(c);
    r
}

// ---------------------------------------------------------------------------
// Predicates and searches
// ---------------------------------------------------------------------------

/// Whether `c` is Unicode white space.
pub fn is_whitespace(c: char) -> (r: bool)
    ensures
        r == is_ws(c),
{
    let u = c as u32;
    (0x09 <= u && u <= 0x0D) || u == 0x20 || u == 0x85 || u == 0xA0 || u == 0x1680 || (0x2000
        <= u && u <= 0x200A) || u == 0x2028 || u == 0x2029 || u == 0x202F || u == 0x205F || u
        == 0x3000
}

/// Two texts are equal.
pub fn same_text(a: &str, b: &str) -> (r: bool)
    ensures
        r == (a@ == b@),
{
    let x = chars_of(a);
    let y = chars_of(b);
    same_chars(&x, &y)
}

/// Two character vectors are equal.
pub fn same_chars(x: &Vec<char>, y: &Vec<char>) -> (r: bool)
    ensures
        r == (x@ == y@),
{
    if x.len() != y.len() {
        return false;
    }
    let mut i: usize = 0;
    while i < x.len()
        invariant
            x.len() == y.len(),
            i <= x.len(),
            forall|j: int| 0 <= j < i ==> x@[j] == y@[j],
        decreases x.len() - i,
    {
        if x[i] != y[i] {
            return false;
        }
        i = i + 1;
    }
    assert(x@ =~= y@);
    true
}

/// Whether `needle` occurs in `v` at index `i`.
pub fn occurs_at_exec(v: &Vec<char>, needle: &Vec<char>, i: usize) -> (r: bool)
    ensures
        r == occurs_at(v@, needle@, i as int),
{
    if i > v.len() || needle.len() > v.len() - i {
        return false;
    }
    let mut j: usize = 0;
    while j < needle.len()
        invariant
            i + needle.len() <= v.len(),
            j <= needle.len(),
            forall|k: int| 0 <= k < j ==> v@[i + k] == needle@[k],
        decreases needle.len() - j,
    {
        if v[i + j] != needle[j] {
            assert(v@.subrange(i as int, i + needle.len())[j as int] != needle@[j as int]);
            return false;
        }
        j = j + 1;
    }
    assert(v@.subrange(i as int, i + needle.len()) =~= needle@);
    true
}

/// Whether `needle` occurs in `v` (`str::contains`).
pub fn contains_chars(v: &Vec<char>, needle: &Vec<char>) -> (r: bool)
    ensures
        r == contains(v@, needle@),
{
    if needle.len() > v.len() {
        assert forall|i: int| !occurs_at(v@, needle@, i) by {}
        return false;
    }
    let last = v.len() - needle.len();
    let mut i: usize = 0;
    loop
        invariant
            last == v.len() - needle.len(),
            i <= last,
            forall|k: int| 0 <= k < i ==> !occurs_at(v@, needle@, k),
        decreases last - i,
    {
        if occurs_at_exec(v, needle, i) {
            return true;
        }
        if i == last {
            assert forall|k: int| !occurs_at(v@, needle@, k) by {
                if occurs_at(v@, needle@, k) {
                    assert(k <= last);
                }
            }
            return false;
        }
        i = i + 1;
    }
}

/// Whether the text `s` contains the text `needle`.
pub fn text_contains(s: &str, needle: &str) -> (r: bool)
    ensures
        r == contains(s@, needle@),
{
    let v = chars_of(s);
    let n = chars_of(needle);
    contains_chars(&v, &n)
}

/// Whether `v` ends with `p`.
pub fn ends_with_chars(v: &Vec<char>, p: &Vec<char>) -> (r: bool)
    ensures
        r == ends_with(v@, p@),
{
    if p.len() > v.len() {
        return false;
    }
    let r = occurs_at_exec(v, p, v.len() - p.len());
    assert(v@.subrange(v.len() - p.len(), v.len() as int) == v@.skip(v.len() - p.len()));
    r
}

/// Index of the first `c` in `v` at or after `from`, or `v.len()`.
pub fn find_char_from(v: &Vec<char>, c: char, from: usize) -> (r: usize)
    requires
        from <= v.len(),
    ensures
        r == from + find_char(v@.skip(from as int), c),
        from <= r <= v.len(),
{
    let mut i = from;
    while i < v.len()
        invariant
            from <= i <= v.len(),
            from + find_char(v@.skip(from as int), c) == i + find_char(v@.skip(i as int), c),
        decreases v.len() - i,
    {
        if v[i] == c {
            return i;
        }
        assert(v@.skip(i as int).drop_first() == v@.skip(i + 1));
        i = i + 1;
    }
    i
}

/// Proof that `find_char` stays within the sequence and points at `c` when it is
/// inside.
pub proof fn lemma_find_char(s: Seq<char>, c: char)
    ensures
        find_char(s, c) <= s.len(),
        find_char(s, c) < s.len() ==> s[find_char(s, c) as int] == c,
        forall|k: int| 0 <= k < find_char(s, c) ==> s[k] != c,
    decreases s.len(),
{
    if s.len() > 0 && s[0] != c {
        lemma_find_char(s.drop_first(), c);
        assert forall|k: int| 0 <= k < find_char(s, c) implies s[k] != c by {
            if k > 0 {
                assert(s[k] == s.drop_first()[k - 1]);
            }
        }
    }
}

// ---------------------------------------------------------------------------
// Trimming
// ---------------------------------------------------------------------------

/// Index of the first character of `v[from..to]` that is not white space, or `to`.
fn skip_ws_forward(v: &Vec<char>, from: usize, to: usize) -> (r: usize)
    requires
        from <= to <= v.len(),
    ensures
        from <= r <= to,
        trim_start(v@.subrange(from as int, to as int)) == v@.subrange(
            r as int,
            to as int,
        ),
        r < to ==> !is_ws(v@[r as int]),
{
    let mut i = from;
    while i < to && is_whitespace(v[i])
        invariant
            from <= i <= to <= v.len(),
            trim_start(v@.subrange(from as int, to as int)) == trim_start(
                v@.subrange(i as int, to as int),
            ),
        decreases to - i,
    {
        assert(v@.subrange(i as int, to as int)[0] == v@[i as int]);
        assert(v@.subrange(i as int, to as int).drop_first() == v@.subrange(i + 1, to as int));
        i = i + 1;
    }
    i
}

/// Index one past the last character of `v[from..to]` that is not white space,
/// or `from`.
fn skip_ws_backward(v: &Vec<char>, from: usize, to: usize) -> (r: usize)
    requires
        from <= to <= v.len(),
    ensures
        from <= r <= to,
        trim_end(v@.subrange(from as int, to as int)) == v@.subrange(
            from as int,
            r as int,
        ),
{
    let mut j = to;
    while j > from && is_whitespace(v[j - 1])
        invariant
            from <= j <= to <= v.len(),
            trim_end(v@.subrange(from as int, to as int)) == trim_end(
                v@.subrange(from as int, j as int),
            ),
        decreases j - from,
    {
        assert(v@.subrange(from as int, j as int).last() == v@[j - 1]);
        assert(v@.subrange(from as int, j as int).drop_last() == v@.subrange(
            from as int,
            j - 1,
        ));
        j = j - 1;
    }
    j
}

/// The bounds of `trim(v[from..to])` inside `v`.
pub fn trim_bounds(v: &Vec<char>, from: usize, to: usize) -> (r: (usize, usize))
    requires
        from <= to <= v.len(),
    ensures
        from <= r.0 <= r.1 <= to,
        v@.subrange(r.0 as int, r.1 as int) == trim(v@.subrange(from as int, to as int)),
{
    let lo = skip_ws_forward(v, from, to);
    let hi = skip_ws_backward(v, lo, to);
    (lo, hi)
}

/// `str::trim` on a string.
pub fn trim_text(s: &str) -> (r: String)
    ensures
        r@ == trim(s@),
{
    let v = chars_of(s);
    let (lo, hi) = trim_bounds(&v, 0, v.len());
    assert(v@.subrange(0, v@.len() as int) == v@);
    string_of(&v, lo, hi)
}

/// The bounds of `trim_char(v[from..to], c)` inside `v`.
pub fn trim_char_bounds(v: &Vec<char>, from: usize, to: usize, c: char) -> (r: (usize, usize))
    requires
        from <= to <= v.len(),
    ensures
        from <= r.0 <= r.1 <= to,
        v@.subrange(r.0 as int, r.1 as int) == trim_char(v@.subrange(from as int, to as int), c),
{
    let mut i = from;
    while i < to && v[i] == c
        invariant
            from <= i <= to <= v.len(),
            strip_lead(v@.subrange(from as int, to as int), c) == strip_lead(
                v@.subrange(i as int, to as int),
                c,
            ),
        decreases to - i,
    {
        assert(v@.subrange(i as int, to as int)[0] == v@[i as int]);
        assert(v@.subrange(i as int, to as int).drop_first() == v@.subrange(i + 1, to as int));
        i = i + 1;
    }
    let mut j = to;
    while j > i && v[j - 1] == c
        invariant
            from <= i <= j <= to <= v.len(),
            strip_trail(v@.subrange(i as int, to as int), c) == strip_trail(
                v@.subrange(i as int, j as int),
                c,
            ),
        decreases j - i,
    {
        assert(v@.subrange(i as int, j as int).last() == v@[j - 1]);
        assert(v@.subrange(i as int, j as int).drop_last() == v@.subrange(i as int, j - 1));
        j = j - 1;
    }
    (i, j)
}

// ---------------------------------------------------------------------------
// Lines
// ---------------------------------------------------------------------------

/// The lines of `v` as `str::lines` yields them, each as a pair of bounds into `v`.
pub fn line_bounds(v: &Vec<char>) -> (r: Vec<(usize, usize)>)
    ensures
        r@.len() == lines(v@).len(),
        forall|k: int|
                #![trigger r@[k]]
                0 <= k < r@.len() ==> r@[k].0 <= r@[k].1 <= v@.len(),
        forall|k: int|
            0 <= k < r@.len() ==> v@.subrange(r@[k].0 as int, r@[k].1 as int) == #[trigger] lines(
                v@,
            )[k],
{
    let mut r: Vec<(usize, usize)> = Vec::new();
    let mut start: usize = 0;
    let ghost mut done: Seq<Seq<char>> = seq![];
    assert(v@.skip(0) == v@);
    assert(done + lines(v@) == lines(v@));
    while start < v.len()
        invariant
            start <= v.len(),
            lines(v@) == done + lines(v@.skip(start as int)),
            r@.len() == done.len(),
            forall|k: int|
                #![trigger r@[k]]
                0 <= k < r@.len() ==> r@[k].0 <= r@[k].1 <= v@.len(),
            forall|k: int|
                0 <= k < r@.len() ==> v@.subrange(r@[k].0 as int, r@[k].1 as int) == #[trigger] done[k],
        decreases v.len() - start,
    {
        let ghost rest = v@.skip(start as int);
        let p = find_char_from(v, '\n', start);
        proof {
            lemma_find_char(rest, '\n');
        }
        let ghost q: int = find_char(rest, '\n') as int;
        let ghost old_done = done;
        assert(p == start + q);
        if p < v.len() {
            let end = if p > start && v[p - 1] == '\r' {
                p - 1
            } else {
                p
            };
            proof {
                assert(rest.len() > 0);
                assert(q < rest.len());
                if p > start {
                    assert(rest[q - 1] == v@[p - 1]);
                }
                assert(v@.subrange(start as int, end as int) =~= first_line(rest));
                assert(rest.skip(q + 1) =~= v@.skip(p + 1));
                assert(lines(rest) == seq![first_line(rest)] + lines(rest.skip(q + 1)));
                done = done.push(first_line(rest));
                assert(lines(v@) =~= done + lines(v@.skip(p + 1)));
            }
            let ghost old_r = r@;
            r.push((start, end));
            proof {
                assert forall|k: int|
                    #![trigger r@[k]]
                    0 <= k < r@.len() implies r@[k].0 <= r@[k].1 <= v@.len() by {
                    if k < old_r.len() {
                        assert(r@[k] == old_r[k]);
                    }
                }
                assert forall|k: int| 0 <= k < r@.len() implies v@.subrange(
                    r@[k].0 as int,
                    r@[k].1 as int,
                ) == #[trigger] done[k] by {
                    if k < old_r.len() {
                        assert(r@[k] == old_r[k]);
                        assert(done[k] == old_done[k]);
                    }
                }
            }
            start = p + 1;
        } else {
            proof {
                assert(rest.len() > 0);
                assert(lines(rest) == seq![rest]);
                assert(v@.subrange(start as int, v.len() as int) =~= rest);
                done = done.push(rest);
                assert(v@.skip(v.len() as int) =~= Seq::<char>::empty());
                assert(lines(v@) =~= done + lines(v@.skip(v.len() as int)));
            }
            let ghost old_r = r@;
            r.push((start, v.len()));
            proof {
                assert forall|k: int|
                    #![trigger r@[k]]
                    0 <= k < r@.len() implies r@[k].0 <= r@[k].1 <= v@.len() by {
                    if k < old_r.len() {
                        assert(r@[k] == old_r[k]);
                    }
                }
                assert forall|k: int| 0 <= k < r@.len() implies v@.subrange(
                    r@[k].0 as int,
                    r@[k].1 as int,
                ) == #[trigger] done[k] by {
                    if k < old_r.len() {
                        assert(r@[k] == old_r[k]);
                        assert(done[k] == old_done[k]);
                    }
                }
            }
            start = v.len();
        }
    }
    proof {
        assert(v@.skip(start as int) =~= Seq::<char>::empty());
        assert(lines(v@) =~= done);
        assert forall|k: int| 0 <= k < r@.len() implies v@.subrange(
            r@[k].0 as int,
            r@[k].1 as int,
        ) == #[trigger] lines(v@)[k] by {
            assert(done[k] == lines(v@)[k]);
        }
    }
    r
}

// ---------------------------------------------------------------------------
// Numbers
// ---------------------------------------------------------------------------

/// The decimal digits of `n`.
pub fn digits_of(n: u64) -> (v: Vec<char>)
    ensures
        v@ == digits(n as nat),
    decreases n,
{
    let d: u64 = n % 10;
    let c = if d == 0 {
        '0'
    } else if d == 1 {
        '1'
    } else if d == 2 {
        '2'
    } else if d == 3 {
        '3'
    } else if d == 4 {
        '4'
    } else if d == 5 {
        '5'
    } else if d == 6 {
        '6'
    } else if d == 7 {
        '7'
    } else if d == 8 {
        '8'
    } else {
        '9'
    };
    if n < 10 {
        let mut v: Vec<char> = Vec::new();
        v.push(c);
        v
    } else {
        let mut v = digits_of(n / 10);
        v.push(c);
        v
    }
}

/// The decimal form of an unsigned 64-bit number (`u64::to_string`).
pub fn u64_text(n: u64) -> (s: String)
    ensures
        s@ == decimal(n as int),
{
    let v = digits_of(n);
    string_of(&v, 0, v.len())
}

/// The decimal form of an unsigned number (`usize::to_string`).
pub fn usize_text(n: usize) -> (s: String)
    ensures
        s@ == decimal(n as int),
{
    let v = digits_of(n as u64);
    string_of(&v, 0, v.len())
}

// ---------------------------------------------------------------------------
// UTF-8 length
// ---------------------------------------------------------------------------

/// Proof that the UTF-8 encoding of two texts one after the other is the two
/// encodings one after the other.
pub proof fn lemma_encode_utf8_concat(a: Seq<char>, b: Seq<char>)
    ensures
        encode_utf8(a + b) == encode_utf8(a) + encode_utf8(b),
    decreases a.len(),
{
    if a.len() > 0 {
        assert((a + b).drop_first() == a.drop_first() + b);
        lemma_encode_utf8_concat(a.drop_first(), b);
        assert(encode_scalar(a[0] as u32) + (encode_utf8(a.drop_first()) + encode_utf8(b))
            == encode_scalar(a[0] as u32) + encode_utf8(a.drop_first()) + encode_utf8(b));
    } else {
        assert(a + b == b);
    }
}

/// The number of bytes of the UTF-8 encoding of `c`.
pub open spec fn utf8_width(c: char) -> nat {
    let u = c as u32;
    if u < 0x80 {
        1
    } else if u < 0x800 {
        2
    } else if u < 0x10000 {
        3
    } else {
        4
    }
}

/// Proof that the UTF-8 encoding of `s` with `c` appended is `utf8_width(c)` bytes
/// longer.
pub proof fn lemma_encode_utf8_push_len(s: Seq<char>, c: char)
    ensures
        encode_utf8(s.push(c)).len() == encode_utf8(s).len() + utf8_width(c),
{
    broadcast use vstd::utf8::char_is_scalar;

    assert(s.push(c) == s + seq![c]);
    lemma_encode_utf8_concat(s, seq![c]);
    assert(seq![c].drop_first() == Seq::<char>::empty());
    assert(encode_utf8(seq![c]) == encode_scalar(c as u32) + encode_utf8(Seq::<char>::empty()));
}

/// Whether the UTF-8 encoding of `v[from..to]` is longer than `n` bytes.
pub fn utf8_len_exceeds(v: &Vec<char>, from: usize, to: usize, n: usize) -> (r: bool)
    requires
        from <= to <= v.len(),
    ensures
        r == (encode_utf8(v@.subrange(from as int, to as int)).len() > n),
{
    let mut total: usize = 0;
    let mut i = from;
    while i < to
        invariant
            from <= i <= to <= v.len(),
            total == encode_utf8(v@.subrange(from as int, i as int)).len(),
            total <= n,
        decreases to - i,
    {
        let u = v[i] as u32;
        let w: usize = if u < 0x80 {
            1
        } else if u < 0x800 {
            2
        } else if u < 0x10000 {
            3
        } else {
            4
        };
        proof {
            assert(v@.subrange(from as int, i + 1) == v@.subrange(from as int, i as int).push(
                v@[i as int],
            ));
            lemma_encode_utf8_push_len(v@.subrange(from as int, i as int), v@[i as int]);
            assert(v@.subrange(from as int, i + 1) == v@.subrange(from as int, to as int).take(
                i + 1 - from,
            ));
            lemma_encode_utf8_monotone(v@.subrange(from as int, i + 1), v@.subrange(
                from as int,
                to as int,
            ));
        }
        if w > n - total {
            return true;
        }
        total = total + w;
        i = i + 1;
    }
    false
}

/// Proof that the encoding of a prefix is no longer than that of the whole.
pub proof fn lemma_encode_utf8_monotone(a: Seq<char>, b: Seq<char>)
    requires
        a.len() <= b.len(),
        a == b.take(a.len() as int),
    ensures
        encode_utf8(a).len() <= encode_utf8(b).len(),
{
    assert(b == a + b.skip(a.len() as int));
    lemma_encode_utf8_concat(a, b.skip(a.len() as int));
}

} // verus!
