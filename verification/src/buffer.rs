//! The ingestion buffer: reports are appended as they come in and drained
//! all at once by the flush cycle.
//!
//! The buffer is an ordinary value. Whoever shares it between request
//! handlers and the flush cycle puts one lock around it; `append` and
//! `drain` take it by `&mut`, so neither can run while the other does.

use vstd::prelude::*;
use crate::error::ApiError;
use crate::report::{
    item_views, BufferItem, BufferItemView, CspReport, CspReportView, ReportPayload,
};

verus! {

/// The reports taken in since the last drain, in the order they came.
#[derive(Debug)]
pub struct ReportBuffer {
    items: Vec<BufferItem>,
}

impl View for ReportBuffer {
    type V = Seq<BufferItemView>;

    closed spec fn view(&self) -> Seq<BufferItemView> {
        item_views(self.items@)
    }
}

/// `chrono::Utc::now().to_rfc3339_opts(SecondsFormat::Millis, true)`: the
/// present time in UTC to the millisecond. It depends on the clock, so
/// nothing is claimed of it. `Utc::now` panics where the system clock
/// stands before 1970.
#[verifier::external_body]
fn now_rfc3339_millis() -> String {
    chrono::Utc::now().to_rfc3339_opts(chrono::SecondsFormat::Millis, true)
}

/// The record that is kept of `report` when it is taken in at `created_at`.
/// The address of the sender is not recorded: the field is left empty.
pub open spec fn stamped(report: CspReportView, created_at: Seq<char>) -> BufferItemView {
    BufferItemView { report, created_at, source_ip: Seq::<char>::empty() }
}

/// What a drain hands out of a buffer that holds `waiting`, and what it
/// leaves behind: everything, and nothing.
pub open spec fn drain_of(waiting: Seq<BufferItemView>) -> (Seq<BufferItemView>, Seq<BufferItemView>) {
    (waiting, Seq::<BufferItemView>::empty())
}

/// What a buffer holds that held `before` and was then offered `items` one
/// by one, where `taken[i]` says whether the buffer could be had for
/// `items[i]`. An item that found the buffer held by the flush cycle is
/// dropped.
pub open spec fn buffered(
    before: Seq<BufferItemView>,
    items: Seq<BufferItemView>,
    taken: Seq<bool>,
) -> Seq<BufferItemView>
    decreases items.len(),
{
    if items.len() == 0 {
        before
    } else {
        let rest = buffered(before, items.drop_last(), taken.drop_last());
        if taken.last() {
            rest.push(items.last())
        } else {
            rest
        }
    }
}

/// The places of the items that were taken, in rising order.
pub open spec fn kept_places(taken: Seq<bool>) -> Seq<int>
    decreases taken.len(),
{
    if taken.len() == 0 {
        Seq::<int>::empty()
    } else if taken.last() {
        kept_places(taken.drop_last()).push(taken.len() - 1)
    } else {
        kept_places(taken.drop_last())
    }
}

/// A drain after any number of appends hands out no more items than were
/// appended, and those in the order of their appending: the item at place
/// `k` of the batch is the `k`-th of those that were taken. Where every
/// append found the buffer free the batch is all the items.
pub proof fn law_drain_after_appends(items: Seq<BufferItemView>, taken: Seq<bool>)
    requires
        items.len() == taken.len(),
    ensures
        drain_of(buffered(Seq::empty(), items, taken)).0.len() <= items.len(),
        drain_of(buffered(Seq::empty(), items, taken)).0.len() == kept_places(taken).len(),
        forall|k: int|
            0 <= k < kept_places(taken).len() ==> 0 <= (#[trigger] kept_places(taken)[k])
                < items.len() && taken[kept_places(taken)[k]] && drain_of(
                buffered(Seq::empty(), items, taken),
            ).0[k] == items[kept_places(taken)[k]],
        forall|k: int, l: int|
            0 <= k < l < kept_places(taken).len() ==> kept_places(taken)[k] < kept_places(taken)[l],
        (forall|i: int| 0 <= i < taken.len() ==> taken[i]) ==> drain_of(
            buffered(Seq::empty(), items, taken),
        ).0 == items,
    decreases items.len(),
{
    if items.len() > 0 {
        law_drain_after_appends(items.drop_last(), taken.drop_last());
        if forall|i: int| 0 <= i < taken.len() ==> taken[i] {
            assert(forall|i: int|
                0 <= i < taken.drop_last().len() ==> taken.drop_last()[i] == taken[i]);
            assert(items.drop_last().push(items.last()) =~= items);
        }
    }
}

/// A drain exhausts the buffer: a second drain with no append in between
/// hands out nothing.
pub proof fn law_second_drain_is_empty(waiting: Seq<BufferItemView>)
    ensures
        drain_of(drain_of(waiting).1).0 == Seq::<BufferItemView>::empty(),
{
}

/// The flush cycle owes the store nothing for a batch that it drained: the
/// buffer is empty after the tick whether or not the bulk append goes
/// through, so a failed append loses that batch and no other.
pub proof fn law_batches_are_independent(waiting: Seq<BufferItemView>, next: Seq<BufferItemView>)
    ensures
        drain_of(buffered(drain_of(waiting).1, next, Seq::new(next.len(), |i: int| true))).0
            == next,
    decreases next.len(),
{
    let all = Seq::new(next.len(), |i: int| true);
    if next.len() > 0 {
        let fewer = Seq::new(next.drop_last().len(), |i: int| true);
        assert(all.drop_last() =~= fewer);
        law_batches_are_independent(waiting, next.drop_last());
        assert(next.drop_last().push(next.last()) =~= next);
    }
}

/// The period of the flush cycle, in seconds.
pub const FLUSH_PERIOD_SECS: u64 = 1;

/// What is to be done with a drained batch.
#[derive(Debug, Clone, PartialEq, Eq)]
pub enum FlushAction {
    /// Nothing was buffered: the store is left alone.
    Idle,
    /// The batch goes to the store as one bulk append.
    Append(Vec<BufferItem>),
}

impl ReportBuffer {
    /// The empty buffer.
    pub fn new() -> (buffer: ReportBuffer)
        ensures
            buffer@ == Seq::<BufferItemView>::empty(),
    {
        ReportBuffer { items: Vec::new() }
    }

    /// How many reports are waiting.
    pub fn len(&self) -> (n: usize)
        ensures
            n == self@.len(),
    {
        self.items.len()
    }

    /// Appends `report`, stamped with `created_at`, behind what is waiting.
    pub fn append(&mut self, report: CspReport, created_at: String)
        ensures
            final(self)@ == old(self)@.push(stamped(report@, created_at@)),
    {
        let item = BufferItem::from_report(report, created_at, String::new());
        let ghost before = self.items@;
        self.items.push(item);
        assert(item_views(self.items@) =~= item_views(before).push(item@));
    }

    /// Takes everything out of the buffer, in the order it was appended,
    /// and leaves the buffer empty.
    pub fn drain(&mut self) -> (batch: Vec<BufferItem>)
        ensures
            (item_views(batch@), final(self)@) == drain_of(old(self)@),
    {
        let mut batch: Vec<BufferItem> = Vec::new();
        batch.append(&mut self.items);
        assert(batch@ =~= old(self).items@);
        batch
    }

    /// One tick of the flush cycle: drains the buffer and says what to do
    /// with the batch. An empty batch is not sent to the store.
    pub fn flush_tick(&mut self) -> (action: FlushAction)
        ensures
            final(self)@ == drain_of(old(self)@).1,
            old(self)@.len() == 0 ==> action is Idle,
            old(self)@.len() > 0 ==> action is Append && item_views(action->Append_0@)
                == drain_of(old(self)@).0,
    {
        let batch = self.drain();
        if batch.len() == 0 {
            FlushAction::Idle
        } else {
            FlushAction::Append(batch)
        }
    }
}

/// Takes in a submitted report. `payload` is `None` where the body of the
/// submission could not be read: the report is then rejected and nothing
/// is buffered. Otherwise the report is stamped with the time of the call
/// and appended to the buffer, if the buffer could be had: `buffer` is
/// `None` where the flush cycle held it at that moment, and the report is
/// then dropped. The sender of a readable report is told `OK` either way.
pub fn report_csp(buffer: Option<&mut ReportBuffer>, payload: Option<ReportPayload>) -> (r: Result<
    &'static str,
    ApiError,
>)
    ensures
        payload is None ==> r is Err && r->Err_0 == ApiError::BadRequest && (buffer matches Some(b)
            ==> final(b)@ == b@),
        payload matches Some(p) ==> r is Ok && r->Ok_0@ == "OK"@ && (buffer matches Some(b)
            ==> exists|created_at: Seq<char>|
            final(b)@ == b@.push(#[trigger] stamped(p.csp_report@, created_at))),
{
    let payload = match payload {
        Some(p) => p,
        None => {
            return Err(ApiError::BadRequest);
        },
    };
    match buffer {
        Some(b) => {
            let created_at = now_rfc3339_millis();
            b.append(payload.csp_report, created_at);
        },
        None => {},
    }
    Ok("OK")
}

} // verus!
