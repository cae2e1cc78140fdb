use gmailrs::message::bytes_to_string;
use gmailrs::message::extract_body;
use gmailrs::message::find_header;
use gmailrs::message::find_plain_text;
use gmailrs::message::summarize;
use gmailrs::message::Message;
use gmailrs::message::MessageHeader;
use gmailrs::message::MessagePart;

fn part(mime_type: Option<&str>, data: Option<&[u8]>, parts: Vec<MessagePart>) -> MessagePart {
    MessagePart {
        mime_type: mime_type.map(String::from),
        headers: None,
        data: data.map(|d| d.to_vec()),
        parts,
    }
}

fn message(root: MessagePart) -> Message {
    Message { payload: Some(root), snippet: None }
}

fn header(name: &str, value: &str) -> MessageHeader {
    MessageHeader { name: Some(String::from(name)), value: Some(String::from(value)) }
}

#[test]
fn top_level_payload_is_returned_verbatim() {
    let msg = message(part(
        Some("text/html"),
        Some(b"<p>top</p>  \n"),
        vec![part(Some("text/plain"), Some(b"nested"), vec![])],
    ));
    assert_eq!(extract_body(&msg), "<p>top</p>  \n");
}

#[test]
fn nested_plain_text_is_found() {
    let msg = message(part(
        Some("multipart/alternative"),
        None,
        vec![
            part(Some("text/html"), Some(b"<p>Hello</p>"), vec![]),
            part(Some("text/plain"), Some(b"Hello"), vec![]),
        ],
    ));
    assert_eq!(extract_body(&msg), "Hello");
}

#[test]
fn no_plain_text_gives_the_empty_string() {
    let msg = message(part(
        Some("multipart/mixed"),
        None,
        vec![
            part(Some("text/html"), Some(b"<p>Hello</p>"), vec![]),
            part(Some("image/png"), Some(&[0x89, 0x50]), vec![part(None, Some(b"x"), vec![])]),
        ],
    ));
    assert_eq!(extract_body(&msg), "");
    assert_eq!(extract_body(&Message { payload: None, snippet: None }), "");
    assert_eq!(extract_body(&message(part(None, None, vec![]))), "");
}

#[test]
fn undecodable_payload_counts_as_absent() {
    // the root payload is no UTF-8: the search goes on below it
    let msg = message(part(
        Some("text/plain"),
        Some(&[0xff, 0xfe]),
        vec![
            part(Some("text/plain"), Some(&[0xc3, 0x28]), vec![]),
            part(Some("text/plain"), Some("gr\u{fc}n".as_bytes()), vec![]),
        ],
    ));
    assert_eq!(extract_body(&msg), "gr\u{fc}n");
}

#[test]
fn search_is_depth_first_and_left_to_right() {
    let parts = vec![
        part(
            Some("multipart/related"),
            None,
            vec![
                part(Some("text/html"), Some(b"<i>no</i>"), vec![]),
                part(None, None, vec![part(Some("text/plain"), Some(b"deep"), vec![])]),
            ],
        ),
        part(Some("text/plain"), Some(b"shallow"), vec![]),
    ];
    assert_eq!(find_plain_text(&parts), Some(String::from("deep")));
}

#[test]
fn a_part_counts_before_its_children() {
    let parts = vec![part(
        Some("text/plain"),
        Some(b"own"),
        vec![part(Some("text/plain"), Some(b"child"), vec![])],
    )];
    assert_eq!(find_plain_text(&parts), Some(String::from("own")));
    // without a payload of its own, the children are searched
    let parts = vec![part(
        Some("text/plain"),
        None,
        vec![part(Some("text/plain"), Some(b"child"), vec![])],
    )];
    assert_eq!(find_plain_text(&parts), Some(String::from("child")));
}

#[test]
fn the_label_must_be_exact() {
    let parts = vec![
        part(Some("TEXT/PLAIN"), Some(b"upper"), vec![]),
        part(Some("text/plain; charset=utf-8"), Some(b"param"), vec![]),
        part(Some(" text/plain"), Some(b"space"), vec![]),
        part(None, Some(b"none"), vec![]),
    ];
    assert_eq!(find_plain_text(&parts), None);
    assert_eq!(find_plain_text(&vec![]), None);
}

#[test]
fn bytes_decode_as_utf8() {
    assert_eq!(bytes_to_string(b"Hello"), Some(String::from("Hello")));
    assert_eq!(bytes_to_string(b""), Some(String::new()));
    assert_eq!(bytes_to_string("\u{20ac}\u{1f600}".as_bytes()), Some(String::from("\u{20ac}\u{1f600}")));
    assert_eq!(bytes_to_string(&[0x48, 0xff]), None);
    assert_eq!(bytes_to_string(&[0xed, 0xa0, 0x80]), None);
    assert_eq!(bytes_to_string(&[0xc0, 0x80]), None);
}

#[test]
fn header_lookup_ignores_case_and_takes_the_first() {
    let headers = vec![
        header("X-Other", "x"),
        header("subject", "first"),
        header("Subject", "second"),
        MessageHeader { name: None, value: Some(String::from("nameless")) },
    ];
    assert_eq!(find_header(&headers, "Subject"), Some(String::from("first")));
    assert_eq!(find_header(&headers, "SUBJECT"), Some(String::from("first")));
    assert_eq!(find_header(&headers, "x-other"), Some(String::from("x")));
    assert_eq!(find_header(&headers, "From"), None);
    assert_eq!(find_header(&headers, "Subjec"), None);
    assert_eq!(find_header(&vec![], "Subject"), None);
}

#[test]
fn a_header_without_value_ends_the_lookup() {
    let headers = vec![
        MessageHeader { name: Some(String::from("From")), value: None },
        header("From", "later@example.com"),
    ];
    assert_eq!(find_header(&headers, "From"), None);
}

#[test]
fn summary_takes_headers_snippet_and_body() {
    let mut root = part(None, None, vec![part(Some("text/plain"), Some(b"Body text"), vec![])]);
    root.headers = Some(vec![header("From", "a@example.com"), header("Subject", "Hi")]);
    let msg = Message { payload: Some(root), snippet: Some(String::from("Body...")) };
    let summary = summarize("m1", &msg).unwrap();
    assert_eq!(summary.id, "m1");
    assert_eq!(summary.from, "a@example.com");
    assert_eq!(summary.subject, "Hi");
    assert_eq!(summary.snippet, "Body...");
    assert_eq!(summary.body_raw, "Body text");
}

#[test]
fn summary_falls_back_to_the_defaults() {
    let mut root = part(None, None, vec![]);
    root.headers = Some(vec![]);
    let msg = Message { payload: Some(root), snippet: None };
    let summary = summarize("m2", &msg).unwrap();
    assert_eq!(summary.id, "m2");
    assert_eq!(summary.from, "Unknown Sender");
    assert_eq!(summary.subject, "No Subject");
    assert_eq!(summary.snippet, "");
    assert_eq!(summary.body_raw, "");
}

#[test]
fn no_summary_without_payload_or_headers() {
    assert!(summarize("m3", &Message { payload: None, snippet: Some(String::from("s")) }).is_none());
    let root = part(Some("text/plain"), Some(b"text"), vec![]);
    assert!(summarize("m4", &message(root)).is_none());
}
