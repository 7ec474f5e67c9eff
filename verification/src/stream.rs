//! The AI analysis: the chat request's texts and the reading of its
//! server-sent event stream.

use vstd::prelude::*;
use vstd::utf8::{decode_utf8, encode_utf8, is_char_boundary, valid_utf8};

use crate::app::AiRequest;
use crate::text::{
    chars_of, find_char, find_char_from, lemma_find_char, owned, starts_with, string_of, trim,
    trim_bounds, utf8_len_exceeds,
};

verus! {

broadcast use vstd::string::group_string_axioms;

// ---------------------------------------------------------------------------
// The request
// ---------------------------------------------------------------------------

/// The address of the chat completion service.
pub const AI_URL: &'static str = "https://opencode.ai/zen/go/v1/chat/completions";

/// The model asked.
pub const MODEL: &'static str = "deepseek-v4-flash";

/// The most tokens the answer may have.
pub const MAX_TOKENS: u32 = 8192;

/// One message of a chat request.
pub struct ChatMessage {
    pub role: String,
    pub content: String,
}

/// The instructions that set the analyst's role.
pub open spec fn system_text() -> Seq<char> {
    "You are a professional CS2 analyst. Provide sharp, insightful commentary in Turkish. Keep it concise (max 5 sentences). Focus on strengths, weaknesses, and notable patterns. Use stats to back your claims."@
}

/// The question about a player.
pub open spec fn user_text(name: Seq<char>, lifetime: Seq<char>, maps: Seq<char>, matches: Seq<char>) -> Seq<char> {
    "Analyze this FACEIT CS2 player:\n\nPlayer: "@ + name + "\n\nLifetime Stats:\n"@ + lifetime
        + "\n\nMap Performance:\n"@ + maps + "\n\nRecent Matches (last 20):\n"@ + matches
        + "\n\nGive a brief analysis in Turkish."@
}

/// The messages of the chat request for an analysis: the instructions, then
/// the question with the player's summaries.
pub fn chat_messages(req: &AiRequest) -> (msgs: Vec<ChatMessage>)
    ensures
        msgs@.len() == 2,
        msgs@[0].role@ == "system"@,
        msgs@[0].content@ == system_text(),
        msgs@[1].role@ == "user"@,
        msgs@[1].content@ == user_text(req.name@, req.lifetime@, req.maps@, req.matches@),
{
    let mut user = owned("Analyze this FACEIT CS2 player:\n\nPlayer: ");
    user.append(req.name.as_str());
    user.append("\n\nLifetime Stats:\n");
    user.append(req.lifetime.as_str());
    user.append("\n\nMap Performance:\n");
    user.append(req.maps.as_str());
    user.append("\n\nRecent Matches (last 20):\n");
    user.append(req.matches.as_str());
    user.append("\n\nGive a brief analysis in Turkish.");
    let mut msgs: Vec<ChatMessage> = Vec::new();
    msgs.push(
        ChatMessage {
            role: owned("system"),
            content: owned(
                "You are a professional CS2 analyst. Provide sharp, insightful commentary in Turkish. Keep it concise (max 5 sentences). Focus on strengths, weaknesses, and notable patterns. Use stats to back your claims.",
            ),
        },
    );
    msgs.push(ChatMessage { role: owned("user"), content: user });
    msgs
}

/// The message for a failed AI request: the status and at most the first 300
/// bytes of the answer's body.
pub open spec fn ai_error_text(status: Seq<char>, body: Seq<char>) -> Seq<char> {
    let b = encode_utf8(body);
    let shown = if b.len() > 300 {
        decode_utf8(b.subrange(0, 300))
    } else {
        body
    };
    "AI API error ("@ + status + "): "@ + shown
}

/// The message for a failed AI request, `status` being the HTTP status as
/// text.
pub fn ai_error_message(status: &str, body: &str) -> (s: String)
    requires
        encode_utf8(body@).len() > 300 ==> is_char_boundary(encode_utf8(body@), 300),
    ensures
        s@ == ai_error_text(status@, body@),
{
    let v = chars_of(body);
    assert(v@.subrange(0, v@.len() as int) == v@);
    let mut s = owned("AI API error (");
    s.append(status);
    s.append("): ");
    if utf8_len_exceeds(&v, 0, v.len(), 300) {
        proof {
            vstd::utf8::encode_utf8_valid_utf8(body@);
            vstd::utf8::encode_utf8_decode_utf8(body@);
        }
        let (head, _) = body.split_at(300);
        proof {
            vstd::utf8::valid_utf8_split(encode_utf8(body@), 300);
            vstd::utf8::decode_utf8_encode_utf8(encode_utf8(head@));
            vstd::utf8::encode_utf8_decode_utf8(head@);
        }
        s.append(head);
    } else {
        s.append(body);
    }
    s
}

// ---------------------------------------------------------------------------
// The event stream
// ---------------------------------------------------------------------------

/// What `String::from_utf8_lossy` makes of bytes that are not valid UTF-8.
pub uninterp spec fn lossy_text(b: Seq<u8>) -> Seq<char>;

/// `String::from_utf8_lossy`: the text of the bytes, with each invalid sequence
/// replaced by U+FFFD. Valid UTF-8 decodes as it is; otherwise the result is
/// named `lossy_text`.
#[verifier::external_body]
fn utf8_lossy(bytes: &[u8]) -> (s: String)
    ensures
        valid_utf8(bytes@) ==> s@ == decode_utf8(bytes@),
        s@ == lossy_text(bytes@),
{
    String::from_utf8_lossy(bytes).into_owned()
}

/// The text at `choices[0].delta.content` of the JSON document `data`, if the
/// document parses and holds a string there.
pub uninterp spec fn delta_text(data: Seq<char>) -> Option<Seq<char>>;

/// `serde_json::from_str` of an event's data, then the string at
/// `choices[0].delta.content`; the result is named `delta_text`.
#[verifier::external_body]
fn delta_content(data: &str) -> (r: Option<String>)
    ensures
        r matches Some(s) ==> delta_text(data@) == Some(s@),
        r is None ==> delta_text(data@) is None,
{
    match serde_json::from_str::<serde_json::Value>(data) {
        Ok(v) => v["choices"][0]["delta"]["content"].as_str().map(|s| s.to_string()),
        Err(_) => None,
    }
}

/// The content pieces of the complete lines in `buf` and the text left over.
///
/// Each complete line is trimmed. Empty lines and `:` comments are skipped; a
/// line `data: [DONE]` ends this pass and leaves the rest for later; a line
/// `data: <json>` yields the JSON's delta content when it has one; other lines
/// are skipped.
pub open spec fn drain(buf: Seq<char>) -> (Seq<Seq<char>>, Seq<char>)
    decreases buf.len(),
{
    let p = find_char(buf, '\n');
    if p >= buf.len() {
        (Seq::empty(), buf)
    } else {
        let line = trim(buf.take(p as int));
        let rest = buf.skip((p + 1) as int);
        if line.len() == 0 || starts_with(line, ":"@) {
            drain(rest)
        } else if starts_with(line, "data: "@) {
            let data = line.skip(6);
            if data == "[DONE]"@ {
                (Seq::empty(), rest)
            } else {
                let (out, left) = drain(rest);
                match delta_text(data) {
                    Some(c) => (seq![c] + out, left),
                    None => (out, left),
                }
            }
        } else {
            drain(rest)
        }
    }
}

/// Whether draining `buf` stops at an end-of-stream line (`data: [DONE]`)
/// among its complete lines.
pub open spec fn stops_at_done(buf: Seq<char>) -> bool
    decreases buf.len(),
{
    let p = find_char(buf, '\n');
    if p >= buf.len() {
        false
    } else {
        let line = trim(buf.take(p as int));
        let rest = buf.skip((p + 1) as int);
        if line.len() == 0 || starts_with(line, ":"@) {
            stops_at_done(rest)
        } else if starts_with(line, "data: "@) {
            line.skip(6) == "[DONE]"@ || stops_at_done(rest)
        } else {
            stops_at_done(rest)
        }
    }
}

/// Proof that the first `c` of `a` is the first `c` of `a + b` too.
proof fn lemma_find_char_in_prefix(a: Seq<char>, b: Seq<char>, c: char)
    requires
        find_char(a, c) < a.len(),
    ensures
        find_char(a + b, c) == find_char(a, c),
{
    lemma_find_char(a, c);
    lemma_find_char(a + b, c);
    let p = find_char(a, c) as int;
    let q = find_char(a + b, c) as int;
    assert((a + b)[p] == a[p]);
    if q < p {
        assert((a + b)[q] == a[q]);
    }
}

/// The text of the stream does not depend on where it is split: draining a
/// text, then draining what is left of it followed by more text, gives the same
/// pieces, and leaves the same text, as draining it all at once. It holds when
/// the first part holds no end-of-stream line (after one, draining stops and
/// the rest waits for the next call).
pub proof fn lemma_drain_split(a: Seq<char>, b: Seq<char>)
    requires
        !stops_at_done(a),
    ensures
        ({
            let (o1, l1) = drain(a);
            let (o2, l2) = drain(l1 + b);
            drain(a + b) == (o1 + o2, l2)
        }),
    decreases a.len(),
{
    let p = find_char(a, '\n');
    if p >= a.len() {
        assert(drain(a) == (Seq::<Seq<char>>::empty(), a));
        let (o2, l2) = drain(a + b);
        assert(Seq::<Seq<char>>::empty() + o2 =~= o2);
    } else {
        lemma_find_char_in_prefix(a, b, '\n');
        assert((a + b).take(p as int) =~= a.take(p as int));
        let rest = a.skip((p + 1) as int);
        assert((a + b).skip((p + 1) as int) =~= rest + b);
        lemma_drain_split(rest, b);
        let (o, l) = drain(rest);
        let (o2, l2) = drain(l + b);
        let line = trim(a.take(p as int));
        if !(line.len() == 0 || starts_with(line, ":"@)) && starts_with(line, "data: "@) {
            let data = line.skip(6);
            match delta_text(data) {
                Some(c) => {
                    assert(seq![c] + (o + o2) =~= (seq![c] + o) + o2);
                },
                None => {},
            }
        }
    }
}

/// The text of the event stream not yet split into lines.
pub struct SseBuffer {
    pub buf: String,
}

/// Whether `v[from..to]` starts with `p`.
fn range_starts_with(v: &Vec<char>, from: usize, to: usize, p: &str) -> (r: bool)
    requires
        from <= to <= v.len(),
    ensures
        r == starts_with(v@.subrange(from as int, to as int), p@),
{
    let pv = chars_of(p);
    if pv.len() > to - from {
        return false;
    }
    let mut j: usize = 0;
    while j < pv.len()
        invariant
            j <= pv.len(),
            pv@ == p@,
            from + pv.len() <= to <= v.len(),
            forall|k: int| 0 <= k < j ==> v@[from + k] == pv@[k],
        decreases pv.len() - j,
    {
        if v[from + j] != pv[j] {
            assert(v@.subrange(from as int, to as int).take(pv@.len() as int)[j as int] != pv@[j as int]);
            return false;
        }
        j = j + 1;
    }
    assert(v@.subrange(from as int, to as int).take(pv@.len() as int) =~= pv@);
    true
}

impl SseBuffer {
    /// An empty buffer.
    pub fn new() -> (b: SseBuffer)
        ensures
            b.buf@ == Seq::<char>::empty(),
    {
        SseBuffer { buf: String::new() }
    }

    /// Takes the complete lines out of the buffer and returns their content
    /// pieces.
    fn drain_lines(&mut self) -> (out: Vec<String>)
        ensures
            (out@.map_values(|s: String| s@), final(self).buf@) == drain(old(self).buf@),
    {
        let v = chars_of(self.buf.as_str());
        let mut out: Vec<String> = Vec::new();
        let mut start: usize = 0;
        let ghost mut acc: Seq<Seq<char>> = Seq::empty();
        assert(v@.skip(0) == v@);
        loop
            invariant
                start <= v.len(),
                v@ == old(self).buf@,
                out@.map_values(|s: String| s@) == acc,
                ({
                    let (o, l) = drain(v@.skip(start as int));
                    drain(v@) == (acc + o, l)
                }),
            decreases v.len() - start,
        {
            let ghost rest = v@.skip(start as int);
            let p = find_char_from(&v, '\n', start);
            proof {
                lemma_find_char(rest, '\n');
            }
            let ghost q: int = p - start;
            if p >= v.len() {
                self.buf = string_of(&v, start, v.len());
                proof {
                    assert(v@.subrange(start as int, v.len() as int) == rest);
                    assert(acc + Seq::<Seq<char>>::empty() == acc);
                }
                return out;
            }
            let (lo, hi) = trim_bounds(&v, start, p);
            proof {
                assert(rest.take(q) == v@.subrange(start as int, p as int));
                assert(rest.skip(q + 1) == v@.skip(p + 1));
            }
            let ghost line = v@.subrange(lo as int, hi as int);
            assert(line == trim(rest.take(q)));
            if lo == hi || range_starts_with(&v, lo, hi, ":") {
                start = p + 1;
            } else if range_starts_with(&v, lo, hi, "data: ") {
                proof {
                    reveal_strlit("data: ");
                    assert(line.skip(6) == v@.subrange(lo + 6, hi as int));
                }
                let data = string_of(&v, lo + 6, hi);
                let done_marker = chars_of("[DONE]");
                let dv = chars_of(data.as_str());
                if crate::text::same_chars(&dv, &done_marker) {
                    self.buf = string_of(&v, p + 1, v.len());
                    proof {
                        assert(v@.subrange(p + 1, v.len() as int) == v@.skip(p + 1));
                        assert(acc + Seq::<Seq<char>>::empty() == acc);
                    }
                    return out;
                }
                match delta_content(data.as_str()) {
                    Some(c) => {
                        let ghost cv = c@;
                        out.push(c);
                        proof {
                            assert(out@.map_values(|s: String| s@) =~= acc.push(cv));
                            let (o, l) = drain(v@.skip(p + 1));
                            assert(acc + (seq![cv] + o) =~= acc.push(cv) + o);
                            acc = acc.push(cv);
                        }
                    },
                    None => {},
                }
                start = p + 1;
            } else {
                start = p + 1;
            }
        }
    }

    /// Adds a piece of the stream and returns the content of the lines it
    /// completes (see `drain`).
    pub fn feed(&mut self, chunk: &[u8]) -> (out: Vec<String>)
        ensures
            (out@.map_values(|s: String| s@), final(self).buf@) == drain(
                old(self).buf@ + lossy_text(chunk@),
            ),
    {
        let text = utf8_lossy(chunk);
        self.buf.append(text.as_str());
        self.drain_lines()
    }
}

} // verus!
