//! What holds of a fetch whatever the provider answers and in whatever
//! order its answers come in.

use crate::fetch::collected;
use crate::fetch::first_open;
use crate::fetch::response_of;
use crate::fetch::settled;
use crate::fetch::step;
use crate::fetch::after_detail;
use crate::fetch::after_render;
use crate::fetch::initial;
use crate::fetch::with_clean_body;
use crate::fetch::DetailOutcome;
use crate::fetch::BatchView;
use crate::fetch::Event;
use crate::fetch::SlotView;
use crate::reademail::conversion_text;
use crate::reademail::Conversion;
use crate::url_laws::is_tidy;
use crate::url_laws::tidy_plain_text_is_unchanged;
use crate::url_remover::url_at;
use crate::SummaryView;
use vstd::prelude::*;

verus! {

/// The index that an event speaks of.
pub open spec fn event_index(event: Event) -> usize {
    match event {
        Event::Detail { index, outcome } => index,
        Event::Rendered { index, conversion } => index,
    }
}

/// The state after the events `events`, taken in their order.
pub open spec fn run(b: BatchView, events: Seq<Event>) -> BatchView
    decreases events.len(),
{
    if events.len() == 0 {
        b
    } else {
        step(run(b, events.drop_last()), events.last())
    }
}

/// The indexes of the slots that give a summary to the response, ascending.
pub open spec fn settled_indexes(slots: Seq<SlotView>) -> Seq<int>
    decreases slots.len(),
{
    if slots.len() == 0 {
        Seq::empty()
    } else if settled(slots.last()) is Some {
        settled_indexes(slots.drop_last()).push(slots.len() - 1)
    } else {
        settled_indexes(slots.drop_last())
    }
}

/// An event leaves the listing as it is, keeps a refusal of permission in
/// mind, and keeps the state well formed.
pub proof fn step_keeps_shape(b: BatchView, event: Event)
    requires
        b.wf(),
    ensures
        step(b, event).wf(),
        step(b, event).ids == b.ids,
        step(b, event).slots.len() == b.slots.len(),
        b.denied ==> step(b, event).denied,
{
}

/// An event changes what is known of the message it speaks of and of no
/// other: a failure, a refusal or a missed deadline for one message never
/// touches the summary of another.
pub proof fn event_touches_one_slot(b: BatchView, event: Event, other: int)
    requires
        b.wf(),
        0 <= other < b.slots.len(),
        other != event_index(event),
    ensures
        step(b, event).slots[other] == b.slots[other],
{
}

/// A summary that is complete stays as it is, and a message that was left
/// out stays out, whatever is reported later.
pub proof fn settled_slot_stays(b: BatchView, event: Event, i: int)
    requires
        b.wf(),
        0 <= i < b.slots.len(),
        b.slots[i] is Ready || b.slots[i] is Skipped,
    ensures
        step(b, event).slots[i] == b.slots[i],
{
}

/// Events that speak of different messages can be taken in either order:
/// the state after both is the same, and so is the response.
pub proof fn events_commute(b: BatchView, first: Event, second: Event)
    requires
        b.wf(),
        event_index(first) != event_index(second),
    ensures
        step(step(b, first), second) == step(step(b, second), first),
{
    let x = step(step(b, first), second);
    let y = step(step(b, second), first);
    assert(x.slots =~= y.slots);
}

/// The events `events` keep the listing and the number of slots as they are,
/// and a refusal of permission stays in mind.
pub proof fn run_keeps_shape(b: BatchView, events: Seq<Event>)
    requires
        b.wf(),
    ensures
        run(b, events).wf(),
        run(b, events).ids == b.ids,
        run(b, events).slots.len() == b.slots.len(),
        b.denied ==> run(b, events).denied,
    decreases events.len(),
{
    if events.len() > 0 {
        run_keeps_shape(b, events.drop_last());
        step_keeps_shape(run(b, events.drop_last()), events.last());
    }
}

/// Whether `event` reports that the provider refused permission for one of
/// `listed` messages.
pub open spec fn refuses(event: Event, listed: nat) -> bool {
    match event {
        Event::Detail { index, outcome } => index < listed && outcome is PermissionDenied,
        Event::Rendered { index, conversion } => false,
    }
}

/// Once the provider has refused permission for any listed message, the
/// response is empty, whatever was fetched before or comes in after.
pub proof fn denial_empties_response(b: BatchView, events: Seq<Event>, k: int)
    requires
        b.wf(),
        0 <= k < events.len(),
        refuses(events[k], b.slots.len()),
    ensures
        run(b, events).denied,
        response_of(run(b, events)).len() == 0,
    decreases events.len(),
{
    let before = run(b, events.drop_last());
    run_keeps_shape(b, events.drop_last());
    step_keeps_shape(before, events.last());
    if k < events.len() - 1 {
        assert(events.drop_last()[k] == events[k]);
        denial_empties_response(b, events.drop_last(), k);
    }
}

/// Where the provider lists nothing, the response is empty whatever is
/// reported.
pub proof fn nothing_listed_nothing_returned(events: Seq<Event>)
    ensures
        response_of(run(initial(Seq::empty()), events)).len() == 0,
{
    let b = initial(Seq::empty());
    assert(b.wf());
    run_keeps_shape(b, events);
    assert(run(b, events).slots =~= Seq::<SlotView>::empty());
}

/// Whether place `k` of `out` holds the summary that the slot at `indexes[k]`
/// gives.
pub open spec fn comes_from(slots: Seq<SlotView>, out: Seq<SummaryView>, indexes: Seq<int>, k: int) -> bool {
    &&& 0 <= indexes[k] < slots.len()
    &&& settled(slots[indexes[k]]) == Some(out[k])
}

/// The response follows the listing: its summaries come from slots with
/// ascending indexes, one from each settled slot.
pub proof fn collected_in_slot_order(slots: Seq<SlotView>)
    ensures
        collected(slots).len() == settled_indexes(slots).len(),
        forall|k: int|
            0 <= k < settled_indexes(slots).len() ==> #[trigger] comes_from(
                slots,
                collected(slots),
                settled_indexes(slots),
                k,
            ),
        forall|j: int, k: int|
            0 <= j < k < settled_indexes(slots).len() ==> settled_indexes(slots)[j]
                < settled_indexes(slots)[k],
    decreases slots.len(),
{
    if slots.len() > 0 {
        collected_in_slot_order(slots.drop_last());
        let idx = settled_indexes(slots);
        let prev = settled_indexes(slots.drop_last());
        assert forall|k: int| 0 <= k < idx.len() implies #[trigger] comes_from(
            slots,
            collected(slots),
            idx,
            k,
        ) by {
            if k < prev.len() {
                assert(comes_from(slots.drop_last(), collected(slots.drop_last()), prev, k));
                assert(idx[k] == prev[k]);
                assert(slots.drop_last()[prev[k]] == slots[prev[k]]);
            }
        }
        assert forall|j: int, k: int| 0 <= j < k < idx.len() implies idx[j] < idx[k] by {
            assert(comes_from(slots, collected(slots), idx, j));
            if k < prev.len() {
                assert(idx[j] == prev[j] && idx[k] == prev[k]);
            } else {
                assert(idx[j] == prev[j]);
                assert(comes_from(slots.drop_last(), collected(slots.drop_last()), prev, j));
            }
        }
    }
}

/// While permission was not refused, the response lists its summaries in
/// the provider's order: the summary at place `k` belongs to the message
/// listed at `settled_indexes(..)[k]`, and those indexes ascend.
pub proof fn response_in_listing_order(b: BatchView)
    requires
        b.wf(),
        !b.denied,
    ensures
        response_of(b).len() == settled_indexes(b.slots).len(),
        forall|k: int|
            0 <= k < response_of(b).len() ==> 0 <= #[trigger] settled_indexes(b.slots)[k]
                < b.ids.len(),
        forall|k: int|
            0 <= k < response_of(b).len() ==> (#[trigger] response_of(b)[k]).id
                == b.ids[settled_indexes(b.slots)[k]],
        forall|j: int, k: int|
            0 <= j < k < response_of(b).len() ==> settled_indexes(b.slots)[j] < settled_indexes(
                b.slots,
            )[k],
{
    collected_in_slot_order(b.slots);
    let idx = settled_indexes(b.slots);
    assert forall|k: int| 0 <= k < response_of(b).len() implies 0 <= #[trigger] idx[k]
        < b.ids.len() && response_of(b)[k].id == b.ids[idx[k]] by {
        assert(comes_from(b.slots, collected(b.slots), idx, k));
    }
}

/// The number of reports that a slot still waits for: the answer and
/// perhaps a rendering while it waits, the rendering once that is asked for.
pub open spec fn slot_work(slot: SlotView) -> nat {
    match slot {
        SlotView::Waiting => 2,
        SlotView::Rendering(s) => 1,
        SlotView::Ready(s) => 0,
        SlotView::Skipped => 0,
    }
}

/// The number of reports that `slots` still wait for at most.
pub open spec fn work_left(slots: Seq<SlotView>) -> nat
    decreases slots.len(),
{
    if slots.len() == 0 {
        0
    } else {
        work_left(slots.drop_last()) + slot_work(slots.last())
    }
}

/// Whether `event` is the report that the slot at its index waits for.
pub open spec fn answers(b: BatchView, event: Event) -> bool {
    match event {
        Event::Detail { index, outcome } => index < b.slots.len() && b.slots[index as int] is Waiting,
        Event::Rendered { index, conversion } => index < b.slots.len()
            && b.slots[index as int] is Rendering,
    }
}

proof fn lemma_work_after_update(slots: Seq<SlotView>, i: int, slot: SlotView)
    requires
        0 <= i < slots.len(),
    ensures
        work_left(slots.update(i, slot)) + slot_work(slots[i]) == work_left(slots) + slot_work(slot),
    decreases slots.len(),
{
    let updated = slots.update(i, slot);
    if i == slots.len() - 1 {
        assert(updated.drop_last() =~= slots.drop_last());
    } else {
        assert(updated.drop_last() =~= slots.drop_last().update(i, slot));
        lemma_work_after_update(slots.drop_last(), i, slot);
    }
}

/// Every report that was waited for brings the fetch nearer to its end, so
/// that working on one message at a time comes to `Action::Finish`.
pub proof fn answer_makes_progress(b: BatchView, event: Event)
    requires
        b.wf(),
        answers(b, event),
    ensures
        work_left(step(b, event).slots) < work_left(b.slots),
{
    let i = event_index(event) as int;
    lemma_work_after_update(b.slots, i, step(b, event).slots[i]);
    assert(step(b, event).slots =~= b.slots.update(i, step(b, event).slots[i]));
}

/// Nothing is waited for exactly when no slot is open.
pub proof fn no_work_means_no_open_slot(slots: Seq<SlotView>)
    ensures
        work_left(slots) == 0 <==> first_open(slots, 0) == slots.len(),
{
    lemma_open_from(slots, 0);
    assert(slots.skip(0) =~= slots);
}

proof fn lemma_open_from(slots: Seq<SlotView>, from: int)
    requires
        0 <= from <= slots.len(),
    ensures
        from <= first_open(slots, from) <= slots.len(),
        work_left(slots.skip(from)) == 0 <==> first_open(slots, from) == slots.len(),
    decreases slots.len() - from,
{
    let rest = slots.skip(from);
    if from < slots.len() {
        lemma_open_from(slots, from + 1);
        lemma_work_front(rest);
        assert(rest.drop_first() =~= slots.skip(from + 1));
    } else {
        assert(rest =~= Seq::<SlotView>::empty());
    }
}

proof fn lemma_work_front(slots: Seq<SlotView>)
    requires
        slots.len() > 0,
    ensures
        work_left(slots) == slot_work(slots[0]) + work_left(slots.drop_first()),
    decreases slots.len(),
{
    if slots.len() == 1 {
        assert(slots.drop_last() =~= Seq::<SlotView>::empty());
        assert(slots.drop_first() =~= Seq::<SlotView>::empty());
    } else {
        lemma_work_front(slots.drop_last());
        assert(slots.drop_last().drop_first() =~= slots.drop_first().drop_last());
        assert(slots.drop_first().last() == slots.last());
    }
}

/// The report that the rendering for the message at `index` ended with
/// `conversion`.
pub open spec fn rendered_event(index: usize, conversion: Conversion) -> Event {
    Event::Rendered { index, conversion }
}

/// A rendering that failed or missed its deadline raises nothing and costs
/// the response nothing: the summary is completed with the body as it was
/// fetched, cleaned like any other. A body that is tidy and holds no link
/// therefore stands in the response unchanged, markup and all.
pub proof fn unconverted_body_is_kept(b: BatchView, index: usize, conversion: Conversion, s: SummaryView)
    requires
        b.wf(),
        index < b.slots.len(),
        b.slots[index as int] == SlotView::Rendering(s),
        conversion is TimedOut || conversion is Failed,
    ensures
        step(b, rendered_event(index, conversion)).slots[index as int] == SlotView::Ready(
            with_clean_body(s),
        ),
        step(b, rendered_event(index, conversion)).denied == b.denied,
        is_tidy(s.body_raw) && (forall|i: int| 0 <= i < s.body_raw.len() ==> !url_at(s.body_raw, i))
            ==> step(b, rendered_event(index, conversion)).slots[index as int] == SlotView::Ready(
            s,
        ),
{
    assert(conversion_text(conversion) is None);
    if is_tidy(s.body_raw) && (forall|i: int| 0 <= i < s.body_raw.len() ==> !url_at(s.body_raw, i)) {
        tidy_plain_text_is_unchanged(s.body_raw);
    }
}

/// What is known of a message in the end, when the provider answered with
/// `outcome` and the rendering, if one was asked for, ended with
/// `conversion`.
pub open spec fn final_slot(id: Seq<char>, outcome: DetailOutcome, conversion: Conversion) -> SlotView {
    match after_detail(id, outcome) {
        SlotView::Rendering(s) => SlotView::Ready(after_render(s, conversion)),
        slot => slot,
    }
}

/// Whether the provider refused permission for any of the first `n`
/// messages.
pub open spec fn any_refused(outcomes: Seq<DetailOutcome>, n: int) -> bool
    decreases n,
{
    if n <= 0 {
        false
    } else {
        any_refused(outcomes, n - 1) || outcomes[n - 1] is PermissionDenied
    }
}

/// The state when the first `n` listed messages are through: they are as
/// `final_slot` says, the others wait.
pub open spec fn state_after(
    ids: Seq<Seq<char>>,
    outcomes: Seq<DetailOutcome>,
    conversions: Seq<Conversion>,
    n: int,
) -> BatchView {
    BatchView {
        ids,
        slots: Seq::new(
            ids.len(),
            |i: int|
                if i < n {
                    final_slot(ids[i], outcomes[i], conversions[i])
                } else {
                    SlotView::Waiting
                },
        ),
        denied: any_refused(outcomes, n),
    }
}

/// The reports for the first `n` listed messages, one message after the
/// other: for each its answer, then the end of its rendering.
pub open spec fn reports(outcomes: Seq<DetailOutcome>, conversions: Seq<Conversion>, n: int) -> Seq<
    Event,
>
    decreases n,
{
    if n <= 0 {
        Seq::empty()
    } else {
        reports(outcomes, conversions, n - 1).push(
            Event::Detail { index: (n - 1) as usize, outcome: outcomes[n - 1] },
        ).push(rendered_event((n - 1) as usize, conversions[n - 1]))
    }
}

/// A fetch from beginning to end. When the messages are worked on one after
/// the other, then after `n` of them the first `n` are settled, each by its
/// own answer and rendering alone, and the others wait. After all of them
/// the response is therefore empty if permission was refused for any, and
/// else holds, in listing order, the summaries that `final_slot` gives.
pub proof fn fetch_in_listing_order(
    ids: Seq<Seq<char>>,
    outcomes: Seq<DetailOutcome>,
    conversions: Seq<Conversion>,
    n: int,
)
    requires
        outcomes.len() == ids.len(),
        conversions.len() == ids.len(),
        0 <= n <= ids.len(),
        ids.len() <= usize::MAX,
    ensures
        run(initial(ids), reports(outcomes, conversions, n)) == state_after(
            ids,
            outcomes,
            conversions,
            n,
        ),
        n == ids.len() && any_refused(outcomes, n) ==> response_of(
            run(initial(ids), reports(outcomes, conversions, n)),
        ).len() == 0,
        n == ids.len() && !any_refused(outcomes, n) ==> response_of(
            run(initial(ids), reports(outcomes, conversions, n)),
        ) == collected(Seq::new(ids.len(), |i: int| final_slot(ids[i], outcomes[i], conversions[i]))),
    decreases n,
{
    let all = reports(outcomes, conversions, n);
    if n == 0 {
        assert(initial(ids).slots =~= state_after(ids, outcomes, conversions, 0).slots);
    } else {
        fetch_in_listing_order(ids, outcomes, conversions, n - 1);
        let index = (n - 1) as usize;
        let earlier = reports(outcomes, conversions, n - 1);
        let answer = Event::Detail { index, outcome: outcomes[n - 1] };
        let rendering = rendered_event(index, conversions[n - 1]);
        assert(all.drop_last() =~= earlier.push(answer));
        assert(all.drop_last().drop_last() =~= earlier);
        let before = state_after(ids, outcomes, conversions, n - 1);
        assert(all.last() == rendering);
        assert(all.drop_last().last() == answer);
        assert(run(initial(ids), all.drop_last()) == step(
            run(initial(ids), all.drop_last().drop_last()),
            answer,
        ));
        assert(run(initial(ids), all) == step(step(before, answer), rendering));
        assert(before.slots[n - 1] is Waiting);
        let after = step(step(before, answer), rendering);
        assert(after.slots =~= state_after(ids, outcomes, conversions, n).slots);
    }
    if n == ids.len() {
        assert(state_after(ids, outcomes, conversions, n).slots =~= Seq::new(
            ids.len(),
            |i: int| final_slot(ids[i], outcomes[i], conversions[i]),
        ));
    }
}

} // verus!
