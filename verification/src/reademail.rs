//! What happens to a message body after it was extracted: marked-up text is
//! rendered as plain text, and links are removed from whatever comes of that.
//!
//! The renderer itself is not run here. It may take long and may break off,
//! so the caller runs it aside, within `RENDER_DEADLINE_MS`, and reports how
//! that ended as a `Conversion`.

use crate::text::chars_of;
use crate::text::is_space;
use crate::text::is_space_char;
use crate::url_remover::cleaned;
use crate::url_remover::UrlRemover;
use crate::EmailSummary;
use vstd::prelude::*;

verus! {

/// The number of columns that rendered text is wrapped to.
pub const RENDER_WIDTH: usize = 100;

/// The time that the renderer is given for one body, in milliseconds.
pub const RENDER_DEADLINE_MS: u64 = 500;

/// How an attempt to render a marked-up body ended.
pub enum Conversion {
    /// The renderer finished in time and produced this text.
    Completed(String),
    /// The renderer finished in time without a text: it reported a failure
    /// or broke off.
    Failed,
    /// The deadline passed before the renderer finished.
    TimedOut,
}

/// The text that a conversion produced, if it produced any.
pub open spec fn conversion_text(conversion: Conversion) -> Option<Seq<char>> {
    match conversion {
        Conversion::Completed(text) => Some(text@),
        Conversion::Failed => None,
        Conversion::TimedOut => None,
    }
}

/// Whether a body counts as marked up: its first character that is no white
/// space is `<`.
pub open spec fn is_marked_up(body: Seq<char>) -> bool {
    exists|i: int|
        0 <= i < body.len() && #[trigger] body[i] == '<' && forall|j: int|
            0 <= j < i ==> is_space(#[trigger] body[j])
}

/// A body after the conversion step: the text that the conversion produced,
/// or the body as it was where the conversion failed or ran out of time.
pub open spec fn converted(body: Seq<char>, conversion: Option<Seq<char>>) -> Seq<char> {
    match conversion {
        Some(text) => text,
        None => body,
    }
}

/// The text that an attempt to render produced; nothing where there was no
/// attempt or where it produced none.
pub open spec fn rendering_text(conversion: Option<Conversion>) -> Option<Seq<char>> {
    match conversion {
        Some(c) => conversion_text(c),
        None => None,
    }
}

/// A body after both steps: where it is marked up, the rendered text takes
/// its place if there is one; whatever comes of that is cleaned.
pub open spec fn normalized(body: Seq<char>, rendering: Option<Seq<char>>) -> Seq<char> {
    if is_marked_up(body) {
        cleaned(converted(body, rendering))
    } else {
        cleaned(body)
    }
}

/// Tells whether a body is marked up.
pub fn looks_marked_up(body: &str) -> (b: bool)
    ensures
        b == is_marked_up(body@),
{
    let chars = chars_of(body);
    let mut i: usize = 0;
    while i < chars.len()
        invariant
            i <= chars.len(),
            chars@ == body@,
            forall|j: int| 0 <= j < i ==> is_space(#[trigger] chars@[j]),
        decreases chars.len() - i,
    {
        if !is_space_char(chars[i]) {
            let found = chars[i] == '<';
            proof {
                if found {
                    assert(body@[i as int] == '<');
                } else {
                    assert forall|k: int| 0 <= k < body@.len() && #[trigger] body@[k] == '<' implies !(
                    forall|j: int| 0 <= j < k ==> is_space(#[trigger] body@[j])) by {
                        if k < i {
                            assert(is_space(body@[k]));
                        } else {
                            assert(!is_space(body@[i as int]));
                        }
                    }
                }
            }
            return found;
        }
        i += 1;
    }
    proof {
        assert forall|k: int| 0 <= k < body@.len() implies #[trigger] body@[k] != '<' by {
            assert(is_space(body@[k]));
        }
    }
    false
}

/// Settles a body once the attempt to render it has ended: the rendered text
/// takes its place, and a failure or a missed deadline leaves it as it was.
pub fn apply_conversion(body: String, conversion: Conversion) -> (r: String)
    ensures
        r@ == converted(body@, conversion_text(conversion)),
        conversion is TimedOut ==> r@ == body@,
        conversion is Failed ==> r@ == body@,
        conversion matches Conversion::Completed(text) ==> r@ == text@,
{
    match conversion {
        Conversion::Completed(text) => text,
        Conversion::Failed => body,
        Conversion::TimedOut => body,
    }
}

/// Removes the links from `text` and tidies its white space.
pub fn remove_urls_from_text(text: &str) -> (r: String)
    ensures
        r@ == cleaned(text@),
{
    UrlRemover::new().clean_text(text)
}

/// Brings the body of a summary into its final form, given how the attempt
/// to render it ended, if one was made: the rendered text takes the place of a
/// marked-up body, a failure or a missed deadline leaves the body as it was,
/// and a body that is not marked up is never replaced; then the links are
/// removed. Nothing else changes.
pub fn convert_html_to_text(summary: &mut EmailSummary, conversion: Option<Conversion>)
    ensures
        final(summary)@ == old(summary)@.with_body(
            normalized(old(summary)@.body_raw, rendering_text(conversion)),
        ),
{
    let marked_up = looks_marked_up(summary.body_raw.as_str());
    match conversion {
        Some(Conversion::Completed(text)) => {
            if marked_up {
                summary.body_raw = remove_urls_from_text(text.as_str());
            } else {
                summary.body_raw = remove_urls_from_text(summary.body_raw.as_str());
            }
        },
        _ => {
            summary.body_raw = remove_urls_from_text(summary.body_raw.as_str());
        },
    }
}

} // verus!
