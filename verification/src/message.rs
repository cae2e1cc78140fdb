//! The provider's message shape, the search for a message's text body, and
//! the summary made of one message.

use crate::text::is_equal;
use crate::text::is_same_text;
use crate::text::same_text;
use crate::EmailSummary;
use crate::SummaryView;
use std::string::FromUtf8Error;
use vstd::prelude::*;
use vstd::slice::slice_to_vec;
use vstd::utf8::decode_utf8;
use vstd::utf8::encode_utf8;
use vstd::utf8::encode_utf8_decode_utf8;
use vstd::utf8::valid_utf8;

verus! {

/// The error of `String::from_utf8`; nothing in it is read here.
#[verifier::external_type_specification]
#[verifier::external_body]
pub struct ExFromUtf8Error(FromUtf8Error);

/// `String::from_utf8` of the standard library succeeds exactly on bytes that
/// are valid UTF-8, and the string it then returns is made of those bytes.
pub assume_specification[ String::from_utf8 ](vec: Vec<u8>) -> (r: Result<String, FromUtf8Error>)
    ensures
        r is Ok <==> valid_utf8(vec@),
        r matches Ok(s) ==> encode_utf8(s@) == vec@,
;

/// One header of a message part; the provider may leave out either half.
pub struct MessageHeader {
    pub name: Option<String>,
    pub value: Option<String>,
}

/// One node of a message's part tree.
pub struct MessagePart {
    /// Content-type label, where the provider gave one.
    pub mime_type: Option<String>,
    /// The headers of this part, where the provider sent any.
    pub headers: Option<Vec<MessageHeader>>,
    /// Inline payload, where the part carries one.
    pub data: Option<Vec<u8>>,
    /// Child parts, in the provider's order.
    pub parts: Vec<MessagePart>,
}

/// A message as the provider returns it in full detail.
pub struct Message {
    /// The root of the part tree.
    pub payload: Option<MessagePart>,
    /// The provider's short preview of the message.
    pub snippet: Option<String>,
}

/// The text that a payload decodes to: its characters where the bytes are
/// valid UTF-8, nothing where they are not or where there is no payload.
pub open spec fn decoded(data: Option<Vec<u8>>) -> Option<Seq<char>> {
    match data {
        Some(bytes) => if valid_utf8(bytes@) {
            Some(decode_utf8(bytes@))
        } else {
            None
        },
        None => None,
    }
}

/// Whether the part is labelled exactly `text/plain`.
pub open spec fn is_plain_text(part: MessagePart) -> bool {
    part.mime_type matches Some(label) && label@ == "text/plain"@
}

/// The text of a part taken by itself: its decoded payload where the part is
/// labelled `text/plain`.
pub open spec fn own_text(part: MessagePart) -> Option<Seq<char>> {
    if is_plain_text(part) {
        decoded(part.data)
    } else {
        None
    }
}

/// The first plain text among `parts`, depth first and left to right: a part's
/// own text counts before anything below it, and what is below it before the
/// parts to its right.
pub open spec fn plain_text_in(parts: Seq<MessagePart>) -> Option<Seq<char>>
    decreases parts,
{
    if parts.len() == 0 {
        None
    } else if own_text(parts[0]) is Some {
        own_text(parts[0])
    } else if plain_text_in(parts[0].parts@) is Some {
        plain_text_in(parts[0].parts@)
    } else {
        plain_text_in(parts.drop_first())
    }
}

/// The body of a message: the decoded payload of the root part whatever its
/// label, else the first plain text below the root, else nothing.
pub open spec fn body_of(msg: Message) -> Seq<char> {
    match msg.payload {
        None => Seq::empty(),
        Some(root) => match decoded(root.data) {
            Some(text) => text,
            None => match plain_text_in(root.parts@) {
                Some(text) => text,
                None => Seq::empty(),
            },
        },
    }
}

/// Decodes bytes as UTF-8; bytes that are no valid UTF-8 give `None`.
pub fn bytes_to_string(data: &[u8]) -> (r: Option<String>)
    ensures
        r is Some <==> valid_utf8(data@),
        r matches Some(s) ==> s@ == decode_utf8(data@),
{
    match String::from_utf8(slice_to_vec(data)) {
        Ok(s) => {
            proof {
                encode_utf8_decode_utf8(s@);
            }
            Some(s)
        },
        Err(_) => None,
    }
}

fn decode_payload(data: &Option<Vec<u8>>) -> (r: Option<String>)
    ensures
        r is Some <==> decoded(*data) is Some,
        r matches Some(s) ==> decoded(*data) == Some(s@),
{
    match data {
        Some(bytes) => bytes_to_string(bytes.as_slice()),
        None => None,
    }
}

fn has_plain_text_label(part: &MessagePart) -> (b: bool)
    ensures
        b == is_plain_text(*part),
{
    match &part.mime_type {
        Some(label) => is_equal(label.as_str(), "text/plain"),
        None => false,
    }
}

/// Searches `parts` for the first plain text, depth first and left to right.
pub fn find_plain_text(parts: &Vec<MessagePart>) -> (r: Option<String>)
    ensures
        r is Some <==> plain_text_in(parts@) is Some,
        r matches Some(s) ==> plain_text_in(parts@) == Some(s@),
    decreases parts@,
{
    let mut i: usize = 0;
    assert(parts@.skip(0) =~= parts@);
    while i < parts.len()
        invariant
            i <= parts.len(),
            plain_text_in(parts@) == plain_text_in(parts@.skip(i as int)),
        decreases parts.len() - i,
    {
        let part = &parts[i];
        assert(parts@.skip(i as int)[0] == parts@[i as int]);
        assert(parts@.skip(i as int).drop_first() =~= parts@.skip(i + 1));
        if has_plain_text_label(part) {
            if let Some(text) = decode_payload(&part.data) {
                return Some(text);
            }
        }
        if let Some(text) = find_plain_text(&part.parts) {
            return Some(text);
        }
        i += 1;
    }
    None
}

/// The body of a message, or the empty string where it has none.
pub fn extract_body(msg: &Message) -> (body: String)
    ensures
        body@ == body_of(*msg),
{
    if let Some(root) = &msg.payload {
        if let Some(text) = decode_payload(&root.data) {
            return text;
        }
        if let Some(text) = find_plain_text(&root.parts) {
            return text;
        }
    }
    String::new()
}

/// The value of the first header in `headers` that is named `name`, ASCII
/// letters compared without regard to case; nothing where no header has that
/// name or where that header has no value.
pub open spec fn header_value(headers: Seq<MessageHeader>, name: Seq<char>) -> Option<Seq<char>>
    decreases headers.len(),
{
    if headers.len() == 0 {
        None
    } else if headers[0].name matches Some(n) && same_text(n@, name) {
        match headers[0].value {
            Some(v) => Some(v@),
            None => None,
        }
    } else {
        header_value(headers.drop_first(), name)
    }
}

/// `header_value`, with `default` where that gives nothing.
pub open spec fn header_or(headers: Seq<MessageHeader>, name: Seq<char>, default: Seq<char>) -> Seq<
    char,
> {
    match header_value(headers, name) {
        Some(v) => v,
        None => default,
    }
}

/// Looks a header up by name and copies its value.
pub fn find_header(headers: &Vec<MessageHeader>, name: &str) -> (r: Option<String>)
    ensures
        r is Some <==> header_value(headers@, name@) is Some,
        r matches Some(v) ==> header_value(headers@, name@) == Some(v@),
{
    let mut i: usize = 0;
    assert(headers@.skip(0) =~= headers@);
    while i < headers.len()
        invariant
            i <= headers.len(),
            header_value(headers@, name@) == header_value(headers@.skip(i as int), name@),
        decreases headers.len() - i,
    {
        let header = &headers[i];
        assert(headers@.skip(i as int)[0] == headers@[i as int]);
        assert(headers@.skip(i as int).drop_first() =~= headers@.skip(i + 1));
        if let Some(n) = &header.name {
            if is_same_text(n.as_str(), name) {
                return match &header.value {
                    Some(v) => Some(v.clone()),
                    None => None,
                };
            }
        }
        i += 1;
    }
    None
}

/// The summary of the message listed as `id`: nothing where the message has
/// no root part or the root part has no headers; else the headers `From` and
/// `Subject` with their defaults, the snippet, and the body as extracted.
pub open spec fn summary_of(id: Seq<char>, msg: Message) -> Option<SummaryView> {
    match msg.payload {
        Some(root) => match root.headers {
            Some(headers) => Some(
                SummaryView {
                    id,
                    from: header_or(headers@, "From"@, "Unknown Sender"@),
                    subject: header_or(headers@, "Subject"@, "No Subject"@),
                    snippet: match msg.snippet {
                        Some(s) => s@,
                        None => Seq::empty(),
                    },
                    body_raw: body_of(msg),
                },
            ),
            None => None,
        },
        None => None,
    }
}

/// Builds the summary of one fetched message.
pub fn summarize(id: &str, msg: &Message) -> (r: Option<EmailSummary>)
    ensures
        r is Some <==> summary_of(id@, *msg) is Some,
        r matches Some(s) ==> summary_of(id@, *msg) == Some(s@),
{
    let root = match &msg.payload {
        Some(root) => root,
        None => { return None; },
    };
    let headers = match &root.headers {
        Some(headers) => headers,
        None => { return None; },
    };
    let subject = match find_header(headers, "Subject") {
        Some(v) => v,
        None => String::from_str("No Subject"),
    };
    let from = match find_header(headers, "From") {
        Some(v) => v,
        None => String::from_str("Unknown Sender"),
    };
    let snippet = match &msg.snippet {
        Some(s) => s.clone(),
        None => String::new(),
    };
    let body_raw = extract_body(msg);
    Some(EmailSummary { id: String::from_str(id), from, subject, snippet, body_raw })
}

/// The parts of a tree in the order of the search: each part, then what is
/// below it, then the parts to its right.
pub open spec fn in_search_order(parts: Seq<MessagePart>) -> Seq<MessagePart>
    decreases parts,
{
    if parts.len() == 0 {
        Seq::empty()
    } else {
        seq![parts[0]] + in_search_order(parts[0].parts@) + in_search_order(parts.drop_first())
    }
}

/// The own text of the first of `parts` that has one.
pub open spec fn first_own_text(parts: Seq<MessagePart>) -> Option<Seq<char>>
    decreases parts.len(),
{
    if parts.len() == 0 {
        None
    } else if own_text(parts[0]) is Some {
        own_text(parts[0])
    } else {
        first_own_text(parts.drop_first())
    }
}

/// `first` where it holds something, else `second`.
pub open spec fn or_else(first: Option<Seq<char>>, second: Option<Seq<char>>) -> Option<Seq<char>> {
    if first is Some {
        first
    } else {
        second
    }
}

proof fn lemma_first_own_text_of_two(a: Seq<MessagePart>, b: Seq<MessagePart>)
    ensures
        first_own_text(a + b) == or_else(first_own_text(a), first_own_text(b)),
    decreases a.len(),
{
    if a.len() == 0 {
        assert(a + b =~= b);
    } else {
        assert((a + b)[0] == a[0]);
        assert((a + b).drop_first() =~= a.drop_first() + b);
        lemma_first_own_text_of_two(a.drop_first(), b);
    }
}

/// The search is depth first and left to right: what it finds is the own
/// text of the first part, in that order, that has one.
pub proof fn search_is_depth_first(parts: Seq<MessagePart>)
    ensures
        plain_text_in(parts) == first_own_text(in_search_order(parts)),
    decreases parts,
{
    if parts.len() > 0 {
        let one = seq![parts[0]];
        let below = in_search_order(parts[0].parts@);
        let right = in_search_order(parts.drop_first());
        search_is_depth_first(parts[0].parts@);
        search_is_depth_first(parts.drop_first());
        lemma_first_own_text_of_two(below, right);
        lemma_first_own_text_of_two(one, below + right);
        assert(one + below + right =~= one + (below + right));
        assert(one[0] == parts[0]);
        assert(one.drop_first() =~= Seq::<MessagePart>::empty());
        assert(first_own_text(one.drop_first()) is None);
        assert(first_own_text(one) == own_text(parts[0]));
    }
}

} // verus!
