//! Inbox retrieval and body normalisation for one mail provider.
//!
//! The library decides; its caller talks to the provider. `fetch` holds the
//! state of one fetch and says what the response is, `message` finds the text
//! body of a message and makes its summary, `reademail` settles a body after
//! the attempt to render it, and `url_remover` takes the links out. What is
//! proved of them beyond their contracts stands in `fetch_laws` and
//! `url_laws`. `parser` is an expression converter that stands by itself.

pub mod fetch;
pub mod fetch_laws;
pub mod message;
pub mod parser;
pub mod reademail;
pub mod text;
pub mod url_laws;
pub mod url_remover;

use vstd::prelude::*;

verus! {

/// What the library reports of one message.
#[derive(Debug)]
pub struct EmailSummary {
    /// The provider's identifier of the message.
    pub id: String,
    /// The value of the `From` header.
    pub from: String,
    /// The value of the `Subject` header.
    pub subject: String,
    /// The provider's short preview of the message.
    pub snippet: String,
    /// The body: as extracted at first, as plain text without links in the end.
    pub body_raw: String,
}

/// The texts of an `EmailSummary`.
pub ghost struct SummaryView {
    pub id: Seq<char>,
    pub from: Seq<char>,
    pub subject: Seq<char>,
    pub snippet: Seq<char>,
    pub body_raw: Seq<char>,
}

impl SummaryView {
    /// These texts with `body` in place of the body.
    pub open spec fn with_body(self, body: Seq<char>) -> SummaryView {
        SummaryView { body_raw: body, ..self }
    }
}

impl View for EmailSummary {
    type V = SummaryView;

    open spec fn view(&self) -> SummaryView {
        SummaryView {
            id: self.id@,
            from: self.from@,
            subject: self.subject@,
            snippet: self.snippet@,
            body_raw: self.body_raw@,
        }
    }
}

/// The texts of each of `emails`, in order.
pub open spec fn summary_views(emails: Seq<EmailSummary>) -> Seq<SummaryView> {
    Seq::new(emails.len(), |i: int| emails[i]@)
}

/// What an `EmailResponse` holds: the texts of its summaries, and the number
/// that it reports.
pub ghost struct ResponseView {
    pub emails: Seq<SummaryView>,
    pub count: nat,
}

/// The response that holds `emails`, which reports their number.
pub open spec fn response_with(emails: Seq<SummaryView>) -> ResponseView {
    ResponseView { emails, count: emails.len() }
}

/// The summaries of one fetch, in the order in which the provider listed the
/// messages, together with their number.
#[derive(Debug)]
pub struct EmailResponse {
    emails: Vec<EmailSummary>,
    count: usize,
}

impl View for EmailResponse {
    type V = ResponseView;

    closed spec fn view(&self) -> ResponseView {
        ResponseView { emails: summary_views(self.emails@), count: self.count as nat }
    }
}

impl EmailResponse {
    #[verifier::type_invariant]
    spec fn counted(self) -> bool {
        self.count == self.emails@.len()
    }

    /// The response that holds `emails`.
    pub fn new(emails: Vec<EmailSummary>) -> (r: Self)
        ensures
            r@ == response_with(summary_views(emails@)),
    {
        let count = emails.len();
        EmailResponse { emails, count }
    }

    /// The response that holds nothing.
    pub fn empty() -> (r: Self)
        ensures
            r@ == response_with(Seq::empty()),
    {
        let r = EmailResponse { emails: Vec::new(), count: 0 };
        assert(r@.emails =~= Seq::<SummaryView>::empty());
        r
    }

    /// The number that the response reports, which is the number of its
    /// summaries.
    pub fn count(&self) -> (n: usize)
        ensures
            n == self@.count,
            n == self@.emails.len(),
    {
        proof {
            use_type_invariant(self);
        }
        self.count
    }

    /// The summaries, in listing order; there are as many as the response
    /// reports.
    pub fn emails(&self) -> (emails: &Vec<EmailSummary>)
        ensures
            summary_views(emails@) == self@.emails,
            emails@.len() == self@.count,
    {
        proof {
            use_type_invariant(self);
        }
        &self.emails
    }

    /// Gives up the response for its summaries.
    pub fn into_emails(self) -> (emails: Vec<EmailSummary>)
        ensures
            summary_views(emails@) == self@.emails,
            emails@.len() == self@.count,
    {
        proof {
            use_type_invariant(&self);
        }
        self.emails
    }
}

} // verus!
