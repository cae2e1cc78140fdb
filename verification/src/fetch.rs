//! The decisions of one fetch: how many messages to list, what to do with
//! each answer of the provider, and what the response holds in the end.
//!
//! The caller talks to the provider and keeps the deadline of the renderer;
//! it reports what happened as an `Event`, in whatever order the answers come
//! in, and asks the `Orchestrator` what to do next.

use crate::message::summarize;
use crate::message::summary_of;
use crate::message::Message;
use crate::reademail::apply_conversion;
use crate::reademail::conversion_text;
use crate::reademail::converted;
use crate::reademail::is_marked_up;
use crate::reademail::looks_marked_up;
use crate::reademail::remove_urls_from_text;
use crate::reademail::Conversion;
use crate::response_with;
use crate::summary_views;
use crate::text::is_equal;
use crate::url_remover::cleaned;
use crate::EmailResponse;
use crate::EmailSummary;
use crate::SummaryView;
use vstd::prelude::*;

verus! {

/// Largest number of messages the provider lists in one request.
pub const MAX_LIMIT: u32 = 500;

/// Number of messages listed when the caller asks for none.
pub const DEFAULT_LIMIT: u32 = 10;

/// Clamps a requested message count to what the provider accepts: more than
/// 500 becomes 500, none becomes 10, anything else is kept.
pub fn effective_limit(max_results: u32) -> (limit: u32)
    ensures
        max_results > MAX_LIMIT ==> limit == MAX_LIMIT,
        max_results == 0 ==> limit == DEFAULT_LIMIT,
        1 <= max_results <= MAX_LIMIT ==> limit == max_results,
{
    if max_results > MAX_LIMIT {
        MAX_LIMIT
    } else if max_results == 0 {
        DEFAULT_LIMIT
    } else {
        max_results
    }
}

/// The provider's answer to the request for one message in full detail.
pub enum DetailOutcome {
    /// The provider returned the message.
    Fetched(Message),
    /// The provider refused for want of permission.
    PermissionDenied,
    /// The request failed in any other way.
    Failed,
}

/// Whether the status that came with a provider's error says that
/// permission was refused: it is `PERMISSION_DENIED`, exactly so written.
pub open spec fn refuses_permission(status: Option<&str>) -> bool {
    status matches Some(s) && s@ == "PERMISSION_DENIED"@
}

impl DetailOutcome {
    /// The outcome that a failed request stands for, from the status that
    /// the provider's error carried, if it carried one.
    pub fn from_status(status: Option<&str>) -> (r: DetailOutcome)
        ensures
            refuses_permission(status) ==> r is PermissionDenied,
            !refuses_permission(status) ==> r is Failed,
    {
        match status {
            Some(s) => if is_equal(s, "PERMISSION_DENIED") {
                DetailOutcome::PermissionDenied
            } else {
                DetailOutcome::Failed
            },
            None => DetailOutcome::Failed,
        }
    }
}

/// Something that the caller reports.
pub enum Event {
    /// The request for the message listed at `index` ended with `outcome`.
    Detail { index: usize, outcome: DetailOutcome },
    /// The attempt to render the body of the message listed at `index` ended
    /// with `conversion`.
    Rendered { index: usize, conversion: Conversion },
}

/// What the caller is to do next when it works on one message at a time.
pub enum Action {
    /// Request the message `id`, listed at `index`, in full detail.
    Fetch { index: usize, id: String },
    /// Render `html`, the body of the message listed at `index`, within the
    /// deadline.
    Render { index: usize, html: String },
    /// Nothing is left to do: call `finish`.
    Finish,
}

/// An `Action`, with the texts in place of the strings.
pub ghost enum ActionView {
    Fetch { index: usize, id: Seq<char> },
    Render { index: usize, html: Seq<char> },
    Finish,
}

impl View for Action {
    type V = ActionView;

    open spec fn view(&self) -> ActionView {
        match self {
            Action::Fetch { index, id } => ActionView::Fetch { index: *index, id: id@ },
            Action::Render { index, html } => ActionView::Render { index: *index, html: html@ },
            Action::Finish => ActionView::Finish,
        }
    }
}

/// What is known of one listed message.
pub ghost enum SlotView {
    /// No answer has come in yet.
    Waiting,
    /// The message was fetched; its marked-up body is yet to be rendered.
    Rendering(SummaryView),
    /// The summary is complete.
    Ready(SummaryView),
    /// The message is left out of the response.
    Skipped,
}

/// The state of one fetch.
pub ghost struct BatchView {
    /// The identifiers as the provider listed them.
    pub ids: Seq<Seq<char>>,
    /// What is known of each listed message.
    pub slots: Seq<SlotView>,
    /// Whether the provider has refused permission for any of them.
    pub denied: bool,
}

impl BatchView {
    /// There is one slot for each listed message, and a summary carries the
    /// identifier under which its message was listed.
    pub open spec fn wf(self) -> bool {
        &&& self.slots.len() == self.ids.len()
        &&& forall|i: int|
            0 <= i < self.slots.len() ==> match #[trigger] self.slots[i] {
                SlotView::Rendering(s) => s.id == self.ids[i],
                SlotView::Ready(s) => s.id == self.ids[i],
                _ => true,
            }
    }
}

/// `s` with its body cleaned.
pub open spec fn with_clean_body(s: SummaryView) -> SummaryView {
    s.with_body(cleaned(s.body_raw))
}

/// What becomes of a waiting message, listed as `id`, when the provider
/// answers: a fetched message gives a summary, which is complete once its
/// body is cleaned unless the body is marked up and has to be rendered
/// first; a message of which no summary can be made, and any failure, leaves
/// the message out.
pub open spec fn after_detail(id: Seq<char>, outcome: DetailOutcome) -> SlotView {
    match outcome {
        DetailOutcome::Fetched(msg) => match summary_of(id, msg) {
            Some(s) => if is_marked_up(s.body_raw) {
                SlotView::Rendering(s)
            } else {
                SlotView::Ready(with_clean_body(s))
            },
            None => SlotView::Skipped,
        },
        DetailOutcome::PermissionDenied => SlotView::Skipped,
        DetailOutcome::Failed => SlotView::Skipped,
    }
}

/// The summary whose body awaited rendering, completed: the rendered text
/// takes the body's place unless the attempt failed or ran out of time, and
/// is then cleaned.
pub open spec fn after_render(s: SummaryView, conversion: Conversion) -> SummaryView {
    s.with_body(cleaned(converted(s.body_raw, conversion_text(conversion))))
}

/// The state after an event. An event for an index that is not listed
/// changes nothing. A refusal of permission is remembered whatever else is
/// known of the message. Otherwise an answer counts only while its message
/// waits for it, and a rendering only while its summary does.
pub open spec fn step(b: BatchView, event: Event) -> BatchView {
    match event {
        Event::Detail { index, outcome } => if index < b.slots.len() {
            BatchView {
                ids: b.ids,
                slots: if b.slots[index as int] is Waiting {
                    b.slots.update(index as int, after_detail(b.ids[index as int], outcome))
                } else {
                    b.slots
                },
                denied: b.denied || outcome is PermissionDenied,
            }
        } else {
            b
        },
        Event::Rendered { index, conversion } => if index < b.slots.len() {
            match b.slots[index as int] {
                SlotView::Rendering(s) => BatchView {
                    ids: b.ids,
                    slots: b.slots.update(index as int, SlotView::Ready(after_render(s, conversion))),
                    denied: b.denied,
                },
                _ => b,
            }
        } else {
            b
        },
    }
}

/// The summary that a slot gives to the response: a complete one as it is,
/// one whose rendering was never reported with its body as fetched, cleaned.
pub open spec fn settled(slot: SlotView) -> Option<SummaryView> {
    match slot {
        SlotView::Ready(s) => Some(s),
        SlotView::Rendering(s) => Some(with_clean_body(s)),
        SlotView::Waiting => None,
        SlotView::Skipped => None,
    }
}

/// The summaries that `slots` give, in the order of the slots.
pub open spec fn collected(slots: Seq<SlotView>) -> Seq<SummaryView>
    decreases slots.len(),
{
    if slots.len() == 0 {
        Seq::empty()
    } else {
        match settled(slots.last()) {
            Some(s) => collected(slots.drop_last()).push(s),
            None => collected(slots.drop_last()),
        }
    }
}

/// What the response holds: nothing once permission was refused, else the
/// summaries in listing order.
pub open spec fn response_of(b: BatchView) -> Seq<SummaryView> {
    if b.denied {
        Seq::empty()
    } else {
        collected(b.slots)
    }
}

/// The first index from `from` on whose message still waits for an answer
/// or for its rendering, or the number of slots where none does.
pub open spec fn first_open(slots: Seq<SlotView>, from: int) -> int
    decreases slots.len() - from,
{
    if from < 0 || from >= slots.len() {
        slots.len() as int
    } else if slots[from] is Waiting || slots[from] is Rendering {
        from
    } else {
        first_open(slots, from + 1)
    }
}

/// What to do next when the messages are worked on one at a time, in
/// listing order: nothing more once permission was refused or every message
/// is settled; else what the first unsettled message needs, its answer or
/// the rendering of its body.
pub open spec fn next_action_of(b: BatchView) -> ActionView {
    let i = first_open(b.slots, 0);
    if b.denied || i < 0 || i >= b.slots.len() {
        ActionView::Finish
    } else {
        match b.slots[i] {
            SlotView::Rendering(s) => ActionView::Render { index: i as usize, html: s.body_raw },
            _ => ActionView::Fetch { index: i as usize, id: b.ids[i] },
        }
    }
}

/// The texts of the identifiers `ids`.
pub open spec fn id_texts(ids: Seq<String>) -> Seq<Seq<char>> {
    Seq::new(ids.len(), |i: int| ids[i]@)
}

/// The identifiers that a listing holds, in its order: an entry that the
/// provider sent without an identifier is passed over.
pub open spec fn present(listed: Seq<Option<String>>) -> Seq<Seq<char>>
    decreases listed.len(),
{
    if listed.len() == 0 {
        Seq::empty()
    } else {
        match listed.last() {
            Some(id) => present(listed.drop_last()).push(id@),
            None => present(listed.drop_last()),
        }
    }
}

/// The state in which a fetch begins: every listed message waits for its
/// answer, and permission was not refused.
pub open spec fn initial(ids: Seq<Seq<char>>) -> BatchView {
    BatchView { ids, slots: Seq::new(ids.len(), |i: int| SlotView::Waiting), denied: false }
}

enum Slot {
    Waiting,
    Rendering(EmailSummary),
    Ready(EmailSummary),
    Skipped,
}

impl View for Slot {
    type V = SlotView;

    closed spec fn view(&self) -> SlotView {
        match self {
            Slot::Waiting => SlotView::Waiting,
            Slot::Rendering(s) => SlotView::Rendering(s@),
            Slot::Ready(s) => SlotView::Ready(s@),
            Slot::Skipped => SlotView::Skipped,
        }
    }
}

struct Entry {
    id: String,
    slot: Slot,
}

/// Holds what one fetch has learnt so far, and decides.
pub struct Orchestrator {
    entries: Vec<Entry>,
    denied: bool,
}

impl View for Orchestrator {
    type V = BatchView;

    closed spec fn view(&self) -> BatchView {
        BatchView {
            ids: Seq::new(self.entries@.len(), |i: int| self.entries@[i].id@),
            slots: Seq::new(self.entries@.len(), |i: int| self.entries@[i].slot@),
            denied: self.denied,
        }
    }
}

/// The summary `s` with `body` for its body.
fn with_body(s: EmailSummary, body: String) -> (r: EmailSummary)
    ensures
        r@ == s@.with_body(body@),
{
    EmailSummary { id: s.id, from: s.from, subject: s.subject, snippet: s.snippet, body_raw: body }
}

/// The slot of a waiting message, listed as `id`, once the provider answered.
fn slot_after_detail(id: &str, outcome: DetailOutcome) -> (slot: Slot)
    ensures
        slot@ == after_detail(id@, outcome),
{
    match outcome {
        DetailOutcome::Fetched(msg) => match summarize(id, &msg) {
            Some(s) => if looks_marked_up(s.body_raw.as_str()) {
                Slot::Rendering(s)
            } else {
                let body = remove_urls_from_text(s.body_raw.as_str());
                Slot::Ready(with_body(s, body))
            },
            None => Slot::Skipped,
        },
        DetailOutcome::PermissionDenied => Slot::Skipped,
        DetailOutcome::Failed => Slot::Skipped,
    }
}

/// Takes the identifiers out of a listing, in its order.
pub fn present_ids(listed: Vec<Option<String>>) -> (ids: Vec<String>)
    ensures
        id_texts(ids@) == present(listed@),
{
    let ghost all = listed@;
    let mut ids: Vec<String> = Vec::new();
    assert(all.take(0) =~= Seq::<Option<String>>::empty());
    assert(id_texts(ids@) =~= present(all.take(0)));
    for entry in it: listed
        invariant
            it.seq() == all,
            id_texts(ids@) == present(all.take(it.index() as int)),
    {
        assert(all.take(it.index() + 1).drop_last() =~= all.take(it.index() as int));
        let ghost so_far = id_texts(ids@);
        match entry {
            Some(id) => {
                ids.push(id);
                assert(id_texts(ids@) =~= so_far.push(id@));
            },
            None => {},
        }
    }
    assert(all.take(all.len() as int) =~= all);
    ids
}

impl Orchestrator {
    /// Begins a fetch with the identifiers that the provider listed: every
    /// message waits for its answer.
    pub fn new(ids: Vec<String>) -> (r: Self)
        ensures
            r@ == initial(id_texts(ids@)),
            r@.wf(),
    {
        let ghost listed = ids@;
        let mut entries: Vec<Entry> = Vec::new();
        for id in it: ids
            invariant
                it.seq() == listed,
                entries@.len() == it.index(),
                forall|j: int| 0 <= j < it.index() ==> (#[trigger] entries@[j]).slot is Waiting,
                forall|j: int| 0 <= j < it.index() ==> (#[trigger] entries@[j]).id@ == listed[j]@,
        {
            entries.push(Entry { id, slot: Slot::Waiting });
        }
        let r = Orchestrator { entries, denied: false };
        assert(r@.slots =~= initial(id_texts(listed)).slots);
        assert(r@.ids =~= id_texts(listed));
        r
    }

    /// Begins a fetch with the provider's answer to the listing. A listing
    /// that failed ends the fetch, and its error is handed back as it is.
    /// Entries without an identifier are passed over.
    pub fn start<E>(listing: Result<Vec<Option<String>>, E>) -> (r: Result<Self, E>)
        ensures
            listing is Ok ==> r is Ok && r->Ok_0@ == initial(present(listing->Ok_0@)),
            listing is Err ==> r is Err && r->Err_0 == listing->Err_0,
    {
        match listing {
            Ok(listed) => Ok(Orchestrator::new(present_ids(listed))),
            Err(e) => Err(e),
        }
    }

    /// The number of listed messages.
    pub fn len(&self) -> (n: usize)
        ensures
            n == self@.ids.len(),
            n == self@.slots.len(),
    {
        self.entries.len()
    }

    /// The identifier listed at `index`, if there is one.
    pub fn id(&self, index: usize) -> (id: Option<&String>)
        ensures
            index < self@.ids.len() ==> (id matches Some(s) && s@ == self@.ids[index as int]),
            index >= self@.ids.len() ==> id is None,
    {
        if index < self.entries.len() {
            Some(&self.entries[index].id)
        } else {
            None
        }
    }

    /// Whether the provider has refused permission, so that the fetch is over
    /// and its response empty.
    pub fn is_denied(&self) -> (b: bool)
        ensures
            b == self@.denied,
    {
        self.denied
    }

    /// Takes note of an event.
    pub fn handle(&mut self, event: Event)
        ensures
            final(self)@ == step(old(self)@, event),
            old(self)@.wf() ==> final(self)@.wf(),
    {
        let ghost before = self@;
        match event {
            Event::Detail { index, outcome } => {
                if index < self.entries.len() {
                    if let DetailOutcome::PermissionDenied = &outcome {
                        self.denied = true;
                    }
                    if let Slot::Waiting = &self.entries[index].slot {
                        let mut entry = Entry { id: String::new(), slot: Slot::Skipped };
                        self.entries.set_and_swap(index, &mut entry);
                        let slot = slot_after_detail(entry.id.as_str(), outcome);
                        self.entries.set(index, Entry { id: entry.id, slot });
                        assert(self@.slots =~= before.slots.update(index as int, slot@));
                    }
                    assert(self@.ids =~= before.ids);
                    assert(self@.slots =~= step(before, event).slots);
                }
            },
            Event::Rendered { index, conversion } => {
                if index < self.entries.len() {
                    if let Slot::Rendering(_) = &self.entries[index].slot {
                        let mut entry = Entry { id: String::new(), slot: Slot::Skipped };
                        self.entries.set_and_swap(index, &mut entry);
                        if let Slot::Rendering(s) = entry.slot {
                            let EmailSummary { id, from, subject, snippet, body_raw } = s;
                            let body = apply_conversion(body_raw, conversion);
                            let body_raw = remove_urls_from_text(body.as_str());
                            let slot = Slot::Ready(
                                EmailSummary { id, from, subject, snippet, body_raw },
                            );
                            self.entries.set(index, Entry { id: entry.id, slot });
                            assert(self@.slots =~= before.slots.update(index as int, slot@));
                        }
                    }
                    assert(self@.ids =~= before.ids);
                    assert(self@.slots =~= step(before, event).slots);
                }
            },
        }
    }

    /// What to do next when the messages are worked on one at a time, in
    /// listing order.
    pub fn next_action(&self) -> (action: Action)
        ensures
            action@ == next_action_of(self@),
    {
        if self.denied {
            return Action::Finish;
        }
        let mut i: usize = 0;
        while i < self.entries.len()
            invariant
                i <= self.entries.len(),
                !self.denied,
                first_open(self@.slots, 0) == first_open(self@.slots, i as int),
            decreases self.entries.len() - i,
        {
            assert(self@.slots[i as int] == self.entries@[i as int].slot@);
            match &self.entries[i].slot {
                Slot::Waiting => {
                    return Action::Fetch { index: i, id: self.entries[i].id.clone() };
                },
                Slot::Rendering(s) => {
                    return Action::Render { index: i, html: s.body_raw.clone() };
                },
                _ => {},
            }
            i += 1;
        }
        Action::Finish
    }

    /// Ends the fetch and gives the response: empty once permission was
    /// refused, else the summaries of the settled messages in listing order.
    pub fn finish(self) -> (r: EmailResponse)
        ensures
            r@ == response_with(response_of(self@)),
    {
        if self.denied {
            return EmailResponse::empty();
        }
        let ghost views = self@.slots;
        let mut emails: Vec<EmailSummary> = Vec::new();
        assert(views.take(0) =~= Seq::<SlotView>::empty());
        for entry in it: self.entries
            invariant
                it.seq().len() == views.len(),
                forall|j: int| 0 <= j < views.len() ==> (#[trigger] it.seq()[j]).slot@ == views[j],
                summary_views(emails@) == collected(views.take(it.index() as int)),
        {
            assert(views.take(it.index() + 1).drop_last() =~= views.take(it.index() as int));
            let ghost so_far = summary_views(emails@);
            match entry.slot {
                Slot::Ready(s) => {
                    emails.push(s);
                    assert(summary_views(emails@) =~= so_far.push(s@));
                },
                Slot::Rendering(s) => {
                    let body = remove_urls_from_text(s.body_raw.as_str());
                    let s = with_body(s, body);
                    emails.push(s);
                    assert(summary_views(emails@) =~= so_far.push(s@));
                },
                _ => {},
            }
        }
        assert(views.take(views.len() as int) =~= views);
        EmailResponse::new(emails)
    }
}

} // verus!
