//! A model of the files that the store lives in, and of what the actions of
//! an operation do to them. It exists in proofs only: it says what it means
//! for an operation to be atomic, and nothing is ever run against it.

use vstd::prelude::*;
use crate::error::StoreError;
use crate::record::RecordView;
use crate::store::{next, ActionView, EventView, OperationView, PayloadView, TargetView};

verus! {

/// What a file holds.
pub enum Content {
    /// Not yet written in full: a fresh temporary file, or one whose write
    /// was cut short.
    Partial,
    /// The encoding of these records.
    Records(Seq<RecordView>),
    /// This text.
    Text(Seq<char>),
}

/// The files of the store: the container if there is one, the flat files
/// by name, and the temporary file of the running operation if there is
/// one.
pub struct Disk {
    pub container: Option<Content>,
    pub entries: Map<Seq<char>, Content>,
    pub temp: Option<Content>,
}

/// The content of a file that `payload` was written to in full.
pub open spec fn content_of(payload: PayloadView) -> Content {
    match payload {
        PayloadView::Records(records) => Content::Records(records),
        PayloadView::Text(text) => Content::Text(text),
    }
}

/// The disk after the temporary file, holding `content`, took the place of
/// `target`.
pub open spec fn replaced(disk: Disk, target: TargetView, content: Content) -> Disk {
    match target {
        TargetView::Container => Disk { container: Some(content), temp: None, ..disk },
        TargetView::Entry { name } => Disk {
            entries: disk.entries.insert(name, content),
            temp: None,
            ..disk
        },
    }
}

/// `names` lists the flat files of `disk`, in some order; among them may
/// stand names that are not text.
pub open spec fn lists(disk: Disk, names: Seq<Option<Seq<char>>>) -> bool {
    forall|name: Seq<char>| #[trigger] names.contains(Some(name)) <==> disk.entries.dom().contains(name)
}

/// One way in which `action` can turn out on `disk`: it gives `event` and
/// leaves `after`. Any action that touches a file may fail; a failed write
/// leaves the temporary file cut short, every other failure leaves the
/// disk as it was. Only a rename that succeeded puts new content under the
/// name of the container or of a flat file.
pub open spec fn may_answer(disk: Disk, action: ActionView, event: EventView, after: Disk) -> bool {
    match action {
        ActionView::ProbeContainer => after == disk && event == EventView::Exists(
            disk.container is Some,
        ),
        ActionView::ReadContainer => after == disk && match disk.container {
            Some(Content::Records(records)) => event == EventView::Records(records) || event
                == EventView::Failed(StoreError::IoFailure),
            Some(_) => event == EventView::Failed(StoreError::CorruptData) || event
                == EventView::Failed(StoreError::IoFailure),
            None => event == EventView::Failed(StoreError::NotFound),
        },
        ActionView::ReadEntry { name } => after == disk && if disk.entries.dom().contains(name) {
            match disk.entries[name] {
                Content::Text(text) => event == EventView::Text(text) || event == EventView::Failed(
                    StoreError::IoFailure,
                ),
                _ => event == EventView::Failed(StoreError::IoFailure),
            }
        } else {
            event == EventView::Failed(StoreError::NotFound)
        },
        ActionView::ListEntries => after == disk && match event {
            EventView::Names(names) => lists(disk, names),
            EventView::Failed(error) => error == StoreError::IoFailure,
            _ => false,
        },
        ActionView::CreateTemp { .. } => match event {
            EventView::Done => after == Disk { temp: Some(Content::Partial), ..disk },
            EventView::Failed(_) => after == disk,
            _ => false,
        },
        ActionView::WriteTemp { payload } => match event {
            EventView::Done => disk.temp is Some && after == Disk {
                temp: Some(content_of(payload)),
                ..disk
            },
            EventView::Failed(_) => after == Disk {
                temp: if disk.temp is Some {
                    Some(Content::Partial)
                } else {
                    None
                },
                ..disk
            },
            _ => false,
        },
        ActionView::CloneAttributes => after == disk && (event == EventView::Done
            || event is Failed),
        ActionView::Replace { target } => match event {
            EventView::Done => disk.temp is Some && after == replaced(disk, target, disk.temp->0),
            EventView::Failed(_) => after == disk,
            _ => false,
        },
        ActionView::RemoveTemp { .. } => match event {
            EventView::Done => after == Disk { temp: None, ..disk },
            EventView::Failed(_) => after == disk,
            _ => false,
        },
        ActionView::RemoveEntry { name } => if disk.entries.dom().contains(name) {
            match event {
                EventView::Done => after == Disk { entries: disk.entries.remove(name), ..disk },
                EventView::Failed(error) => error == StoreError::IoFailure && after == disk,
                _ => false,
            }
        } else {
            event == EventView::Failed(StoreError::NotFound) && after == disk
        },
        ActionView::Finish { .. } => false,
    }
}

/// One turn of a run: what the pending action gave, and the disk after it.
pub struct Turn {
    pub event: EventView,
    pub disk: Disk,
}

/// `turns` is a run of the operation `op`, whose pending action is
/// `action`, on `disk`: each turn is a way the pending action can turn out,
/// and the operation goes on from its event. A run may stop anywhere, as
/// with a crash.
pub open spec fn is_run(op: OperationView, action: ActionView, disk: Disk, turns: Seq<Turn>) -> bool
    decreases turns.len(),
{
    if turns.len() == 0 {
        true
    } else {
        let turn = turns[0];
        let after = next(op, turn.event);
        may_answer(disk, action, turn.event, turn.disk) && is_run(
            after.0,
            after.1,
            turn.disk,
            turns.drop_first(),
        )
    }
}

/// Where a run leaves off: the operation, its pending action and the disk.
pub open spec fn run_end(op: OperationView, action: ActionView, disk: Disk, turns: Seq<Turn>) -> (
    OperationView,
    ActionView,
    Disk,
)
    decreases turns.len(),
{
    if turns.len() == 0 {
        (op, action, disk)
    } else {
        let turn = turns[0];
        let after = next(op, turn.event);
        run_end(after.0, after.1, turn.disk, turns.drop_first())
    }
}

/// What holds before a run and is kept by every turn holds where the run
/// leaves off.
pub proof fn lemma_run_keeps(
    inv: spec_fn(OperationView, ActionView, Disk) -> bool,
    op: OperationView,
    action: ActionView,
    disk: Disk,
    turns: Seq<Turn>,
)
    requires
        inv(op, action, disk),
        is_run(op, action, disk, turns),
        forall|o: OperationView, a: ActionView, d: Disk, e: EventView, d2: Disk|
            #![trigger inv(o, a, d), may_answer(d, a, e, d2)]
            inv(o, a, d) && may_answer(d, a, e, d2) ==> inv(next(o, e).0, next(o, e).1, d2),
    ensures
        ({
            let end = run_end(op, action, disk, turns);
            inv(end.0, end.1, end.2)
        }),
    decreases turns.len(),
{
    if turns.len() > 0 {
        let turn = turns[0];
        let after = next(op, turn.event);
        assert(may_answer(disk, action, turn.event, turn.disk));
        lemma_run_keeps(inv, after.0, after.1, turn.disk, turns.drop_first());
    }
}

} // verus!
