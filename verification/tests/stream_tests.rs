use faceitui::app::AiRequest;
use faceitui::stream::{ai_error_message, chat_messages, SseBuffer, MAX_TOKENS, MODEL};

#[test]
fn sse_content_pieces() {
    let mut b = SseBuffer::new();
    let out = b.feed(b"data: {\"choices\":[{\"delta\":{\"content\":\"Mer\"}}]}\n\ndata: {\"choices\":[{\"delta\":{\"content\":\"haba\"}}]}\n");
    assert_eq!(out, vec!["Mer".to_string(), "haba".to_string()]);
    assert_eq!(b.buf, "");
}

#[test]
fn sse_partial_lines_wait() {
    let mut b = SseBuffer::new();
    let out = b.feed(b"data: {\"choices\":[{\"delta\":{\"con");
    assert!(out.is_empty());
    let out = b.feed(b"tent\":\"x\"}}]}\n");
    assert_eq!(out, vec!["x".to_string()]);
}

#[test]
fn sse_comments_and_other_lines() {
    let mut b = SseBuffer::new();
    let out = b.feed(b": keep-alive\nevent: ping\ndata: not json\ndata: {\"choices\":[]}\n");
    assert!(out.is_empty());
    assert_eq!(b.buf, "");
}

#[test]
fn sse_done_stops_the_pass() {
    let mut b = SseBuffer::new();
    let out = b.feed(b"data: [DONE]\ndata: {\"choices\":[{\"delta\":{\"content\":\"late\"}}]}\n");
    assert!(out.is_empty());
    assert_eq!(b.buf, "data: {\"choices\":[{\"delta\":{\"content\":\"late\"}}]}\n");
}

#[test]
fn chat_request_messages() {
    let req = AiRequest {
        name: "zywoo".to_string(),
        lifetime: "Wins: 5".to_string(),
        maps: "Mirage: M:1 W:1 WR:100".to_string(),
        matches: "de_nuke | 13 / 2 | W | KD:3".to_string(),
        key: None,
    };
    let msgs = chat_messages(&req);
    assert_eq!(msgs.len(), 2);
    assert_eq!(msgs[0].role, "system");
    assert!(msgs[0].content.starts_with("You are a professional CS2 analyst."));
    assert_eq!(msgs[1].role, "user");
    assert_eq!(
        msgs[1].content,
        "Analyze this FACEIT CS2 player:\n\nPlayer: zywoo\n\nLifetime Stats:\nWins: 5\n\nMap Performance:\nMirage: M:1 W:1 WR:100\n\nRecent Matches (last 20):\nde_nuke | 13 / 2 | W | KD:3\n\nGive a brief analysis in Turkish."
    );
    assert_eq!(MODEL, "deepseek-v4-flash");
    assert_eq!(MAX_TOKENS, 8192);
}

#[test]
fn ai_error_messages() {
    assert_eq!(ai_error_message("401 Unauthorized", "bad key"), "AI API error (401 Unauthorized): bad key");
    let long = "x".repeat(400);
    let msg = ai_error_message("500", &long);
    assert_eq!(msg, format!("AI API error (500): {}", "x".repeat(300)));
}

#[test]
fn sse_invalid_bytes_become_replacement_characters() {
    let mut b = SseBuffer::new();
    let out = b.feed(b"x\xff\n");
    assert!(out.is_empty());
    let out = b.feed(b"partial \xe2\x82");
    assert!(out.is_empty());
    assert_eq!(b.buf, "partial \u{fffd}");
}

#[test]
fn sse_output_does_not_depend_on_the_split() {
    let text: &[u8] = b": hi\ndata: {\"choices\":[{\"delta\":{\"content\":\"a\"}}]}\r\n\ndata: {\"choices\":[{\"delta\":{\"content\":\"b\"}}]}\ndata: {\"cho";
    let mut whole = SseBuffer::new();
    let all = whole.feed(text);
    for cut in 0..=text.len() {
        let mut b = SseBuffer::new();
        let mut out = b.feed(&text[..cut]);
        out.extend(b.feed(&text[cut..]));
        assert_eq!(out, all);
        assert_eq!(b.buf, whole.buf);
    }
    assert_eq!(all, vec!["a".to_string(), "b".to_string()]);
}
