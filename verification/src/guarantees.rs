//! What the operations of the store guarantee, over the model of the disk:
//! a write replaces its file whole or leaves it as it was, wherever the run
//! stops; and an operation touches the files of one layout only.

use vstd::prelude::*;
use crate::disk::{content_of, is_run, lemma_run_keeps, may_answer, run_end, Content, Disk, Turn};
use crate::index::{
    found_at, live_entries, sorted_by_name, value_of, with_property, without_property,
};
use crate::laws::{
    law_delete_keeps_order, law_delete_twice, law_entries_in_order, law_sort_arranges,
    law_sort_keeps_sorted, law_write_keeps_order, law_write_then_read, lemma_edit_keeps_sorted,
    lemma_strict_is_sorted, names_increase,
};
use crate::index::is_strictly_sorted;
use crate::record::RecordView;
use crate::store::{
    begun, next, ActionView, EventView, Mode, OperationView, PayloadView,
    RequestView, TargetView,
};

verus! {

/// The index that a request leaves of `index`.
pub open spec fn new_records(request: RequestView, index: Seq<RecordView>) -> Seq<RecordView> {
    match request {
        RequestView::Put { name, value } => with_property(index, name, value),
        RequestView::Delete { name } => without_property(index, name),
        _ => index,
    }
}

/// Whether a request has anything to write to a container with `index`:
/// a set always has, a delete only where the property is there.
pub open spec fn writes(request: RequestView, index: Seq<RecordView>) -> bool {
    match request {
        RequestView::Put { .. } => true,
        RequestView::Delete { name } => found_at(index, name) is Ok,
        _ => false,
    }
}

/// The action ends the operation with success.
pub open spec fn commits(action: ActionView) -> bool {
    action matches ActionView::Finish { outcome } && outcome.result is Ok
}

/// What holds all through a write in container mode that began on `start`,
/// whose container held `records`.
pub open spec fn container_write_inv(
    request: RequestView,
    start: Disk,
    records: Seq<RecordView>,
    op: OperationView,
    action: ActionView,
    disk: Disk,
) -> bool {
    let index = sorted_by_name(records);
    let fresh = Content::Records(new_records(request, index));
    &&& disk.entries == start.entries
    &&& match op {
        OperationView::Probing { request: asked } => {
            &&& asked == request
            &&& action == ActionView::ProbeContainer
            &&& disk.container == start.container
        },
        OperationView::Loading { request: asked } => {
            &&& asked == request
            &&& action == ActionView::ReadContainer
            &&& disk.container == start.container
        },
        OperationView::Creating { target, payload } => {
            &&& writes(request, index)
            &&& target == TargetView::Container
            &&& content_of(payload) == fresh
            &&& action == ActionView::CreateTemp { mode: Mode::Container }
            &&& disk.container == start.container
        },
        OperationView::Writing { target } => {
            &&& writes(request, index)
            &&& target == TargetView::Container
            &&& action matches ActionView::WriteTemp { payload }
            &&& content_of(payload) == fresh
            &&& disk.container == start.container
        },
        OperationView::Cloning => {
            &&& writes(request, index)
            &&& action == ActionView::CloneAttributes
            &&& disk.temp == Some(fresh)
            &&& disk.container == start.container
        },
        OperationView::Replacing { target } => {
            &&& writes(request, index)
            &&& target == TargetView::Container
            &&& action == ActionView::Replace { target: TargetView::Container }
            &&& disk.temp == Some(fresh)
            &&& disk.container == start.container
        },
        OperationView::Discarding { mode, error } => {
            &&& action == ActionView::RemoveTemp { mode: Mode::Container }
            &&& disk.container == start.container
        },
        OperationView::Finished => {
            &&& action matches ActionView::Finish { outcome }
            &&& outcome.reports == Seq::<(Seq<char>, Seq<char>)>::empty()
            &&& if outcome.result is Ok {
                writes(request, index) && disk.container == Some(fresh)
            } else {
                disk.container == start.container
            }
        },
        _ => false,
    }
}

/// A write in container mode is atomic. Wherever a run of a set or a
/// delete stops, and whatever failed on the way, the container holds what
/// it held before, unless the operation has ended with success: then it
/// holds the whole new index. A delete of a property that is not there
/// never succeeds. No flat file is changed.
pub proof fn law_container_write_is_atomic(
    request: RequestView,
    start: Disk,
    records: Seq<RecordView>,
    turns: Seq<Turn>,
)
    requires
        request is Put || request is Delete,
        start.container == Some(Content::Records(records)),
        is_run(begun(request).0, begun(request).1, start, turns),
    ensures
        ({
            let end = run_end(begun(request).0, begun(request).1, start, turns);
            let index = sorted_by_name(records);
            &&& end.2.entries == start.entries
            &&& commits(end.1) ==> writes(request, index)
            &&& end.2.container == if commits(end.1) {
                Some(Content::Records(new_records(request, index)))
            } else {
                start.container
            }
        }),
{
    let inv = |o: OperationView, a: ActionView, d: Disk|
        container_write_inv(request, start, records, o, a, d);
    assert forall|o: OperationView, a: ActionView, d: Disk, e: EventView, d2: Disk|
        #![trigger inv(o, a, d), may_answer(d, a, e, d2)]
        inv(o, a, d) && may_answer(d, a, e, d2) implies inv(next(o, e).0, next(o, e).1, d2) by {}
    lemma_run_keeps(inv, begun(request).0, begun(request).1, start, turns);
}

/// The flat files that a request leaves of `entries`.
pub open spec fn new_entries(request: RequestView, entries: Map<Seq<char>, Content>) -> Map<
    Seq<char>,
    Content,
> {
    match request {
        RequestView::Put { name, value } => entries.insert(name, Content::Text(value)),
        RequestView::Delete { name } => entries.remove(name),
        _ => entries,
    }
}

/// What holds all through a write in flat-file mode that began on `start`.
pub open spec fn flat_write_inv(
    request: RequestView,
    start: Disk,
    op: OperationView,
    action: ActionView,
    disk: Disk,
) -> bool {
    &&& disk.container is None
    &&& match op {
        OperationView::Probing { request: asked } => {
            &&& asked == request
            &&& action == ActionView::ProbeContainer
            &&& disk.entries == start.entries
        },
        OperationView::Creating { target, payload } => {
            &&& request matches RequestView::Put { name, value }
            &&& target == TargetView::Entry { name }
            &&& payload == PayloadView::Text(value)
            &&& action == ActionView::CreateTemp { mode: Mode::FlatFile }
            &&& disk.entries == start.entries
        },
        OperationView::Writing { target } => {
            &&& request matches RequestView::Put { name, value }
            &&& target == TargetView::Entry { name }
            &&& action == ActionView::WriteTemp { payload: PayloadView::Text(value) }
            &&& disk.entries == start.entries
        },
        OperationView::Replacing { target } => {
            &&& request matches RequestView::Put { name, value }
            &&& target == TargetView::Entry { name }
            &&& action == ActionView::Replace { target }
            &&& disk.temp == Some(Content::Text(value))
            &&& disk.entries == start.entries
        },
        OperationView::Discarding { mode, error } => {
            &&& action == ActionView::RemoveTemp { mode: Mode::FlatFile }
            &&& disk.entries == start.entries
        },
        OperationView::Removing => {
            &&& request matches RequestView::Delete { name }
            &&& action == ActionView::RemoveEntry { name }
            &&& disk.entries == start.entries
        },
        OperationView::Finished => {
            &&& action matches ActionView::Finish { outcome }
            &&& outcome.reports == Seq::<(Seq<char>, Seq<char>)>::empty()
            &&& if outcome.result is Ok {
                &&& disk.entries == new_entries(request, start.entries)
                &&& request is Delete ==> start.entries.dom().contains(request->Delete_name)
            } else {
                disk.entries == start.entries
            }
        },
        _ => false,
    }
}

/// A write in flat-file mode is atomic. Wherever a run of a set or a
/// delete stops, and whatever failed on the way, every flat file holds what
/// it held before, unless the operation has ended with success: then the
/// file of the property holds the whole new value, or is gone. A delete of
/// a property that is not there never succeeds. No container appears.
pub proof fn law_flat_write_is_atomic(request: RequestView, start: Disk, turns: Seq<Turn>)
    requires
        request is Put || request is Delete,
        start.container is None,
        is_run(begun(request).0, begun(request).1, start, turns),
    ensures
        ({
            let end = run_end(begun(request).0, begun(request).1, start, turns);
            &&& end.2.container is None
            &&& commits(end.1) && request is Delete ==> start.entries.dom().contains(
                request->Delete_name,
            )
            &&& end.2.entries == if commits(end.1) {
                new_entries(request, start.entries)
            } else {
                start.entries
            }
        }),
{
    let inv = |o: OperationView, a: ActionView, d: Disk| flat_write_inv(request, start, o, a, d);
    assert forall|o: OperationView, a: ActionView, d: Disk, e: EventView, d2: Disk|
        #![trigger inv(o, a, d), may_answer(d, a, e, d2)]
        inv(o, a, d) && may_answer(d, a, e, d2) implies inv(next(o, e).0, next(o, e).1, d2) by {}
    lemma_run_keeps(inv, begun(request).0, begun(request).1, start, turns);
}

/// What a lookup or an enumeration reports of a container with `index`.
pub open spec fn reports_of(request: RequestView, index: Seq<RecordView>) -> Seq<
    (Seq<char>, Seq<char>),
> {
    match request {
        RequestView::Get { name } => match value_of(index, name) {
            Some(value) => seq![(name, value)],
            None => Seq::empty(),
        },
        RequestView::GetAll => live_entries(index),
        _ => Seq::empty(),
    }
}

/// The reports that the action hands to the sink: those of the outcome
/// where it ends the operation, none where it does not.
pub open spec fn reported(action: ActionView) -> Seq<(Seq<char>, Seq<char>)> {
    match action {
        ActionView::Finish { outcome } => outcome.reports,
        _ => Seq::empty(),
    }
}

/// What holds all through a lookup or an enumeration in container mode.
pub open spec fn container_read_inv(
    request: RequestView,
    start: Disk,
    op: OperationView,
    action: ActionView,
    disk: Disk,
) -> bool {
    &&& disk == start
    &&& match op {
        OperationView::Probing { request: asked } => asked == request && action
            == ActionView::ProbeContainer,
        OperationView::Loading { request: asked } => asked == request && action
            == ActionView::ReadContainer,
        OperationView::Finished => {
            &&& action matches ActionView::Finish { outcome }
            &&& if outcome.result is Ok {
                &&& start.container matches Some(Content::Records(records))
                &&& outcome.reports == reports_of(request, sorted_by_name(records))
            } else {
                outcome.reports == Seq::<(Seq<char>, Seq<char>)>::empty()
            }
        },
        _ => false,
    }
}

/// Reading in container mode changes nothing and reports from the sorted
/// index: a lookup that succeeds reports the value of the name if it has
/// one, an enumeration that succeeds reports every live record in the order
/// of the names. A container that does not decode is an error, and nothing
/// is reported.
pub proof fn law_container_read(request: RequestView, start: Disk, turns: Seq<Turn>)
    requires
        request is Get || request is GetAll,
        start.container is Some,
        is_run(begun(request).0, begun(request).1, start, turns),
    ensures
        ({
            let end = run_end(begun(request).0, begun(request).1, start, turns);
            &&& end.2 == start
            &&& commits(end.1) ==> start.container->0 is Records
            &&& reported(end.1) == if commits(end.1) {
                reports_of(request, sorted_by_name(start.container->0->Records_0))
            } else {
                Seq::empty()
            }
        }),
{
    let inv = |o: OperationView, a: ActionView, d: Disk| container_read_inv(request, start, o, a, d);
    assert forall|o: OperationView, a: ActionView, d: Disk, e: EventView, d2: Disk|
        #![trigger inv(o, a, d), may_answer(d, a, e, d2)]
        inv(o, a, d) && may_answer(d, a, e, d2) implies inv(next(o, e).0, next(o, e).1, d2) by {}
    lemma_run_keeps(inv, begun(request).0, begun(request).1, start, turns);
}

/// Each report is a flat file of the disk, with its text.
pub open spec fn reports_are_files(reports: Seq<(Seq<char>, Seq<char>)>, disk: Disk) -> bool {
    forall|k: int|
        0 <= k < reports.len() ==> disk.entries.dom().contains((#[trigger] reports[k]).0)
            && disk.entries[reports[k].0] == Content::Text(reports[k].1)
}

/// What holds all through a lookup or an enumeration in flat-file mode.
pub open spec fn flat_read_inv(
    request: RequestView,
    start: Disk,
    op: OperationView,
    action: ActionView,
    disk: Disk,
) -> bool {
    &&& disk == start
    &&& match op {
        OperationView::Probing { request: asked } => asked == request && action
            == ActionView::ProbeContainer,
        OperationView::ReadingEntry { name } => request == (RequestView::Get { name }) && action
            == (ActionView::ReadEntry { name }),
        OperationView::Listing => request is GetAll && action == ActionView::ListEntries,
        OperationView::Walking { names, at, reports } => {
            &&& request is GetAll
            &&& 0 <= at < names.len()
            &&& action == ActionView::ReadEntry { name: names[at] }
            &&& reports.len() <= at
            &&& reports_are_files(reports, start)
        },
        OperationView::Finished => {
            &&& action matches ActionView::Finish { outcome }
            &&& reports_are_files(outcome.reports, start)
            &&& outcome.result is Err ==> outcome.reports.len() == 0
            &&& request is Get ==> if outcome.result is Ok {
                outcome.reports.len() == 1 && outcome.reports[0].0 == request->Get_name
            } else {
                outcome.reports.len() == 0
            }
        },
        _ => false,
    }
}

/// Reading in flat-file mode changes nothing and reports what the files
/// hold: every report is a flat file with its text, a lookup that succeeds
/// reports the file of that name and no other, and a lookup that fails
/// reports nothing.
pub proof fn law_flat_read(request: RequestView, start: Disk, turns: Seq<Turn>)
    requires
        request is Get || request is GetAll,
        start.container is None,
        is_run(begun(request).0, begun(request).1, start, turns),
    ensures
        ({
            let end = run_end(begun(request).0, begun(request).1, start, turns);
            &&& end.2 == start
            &&& reports_are_files(reported(end.1), start)
            &&& !commits(end.1) ==> reported(end.1).len() == 0
            &&& request is Get && commits(end.1) ==> ({
                let name = request->Get_name;
                &&& start.entries.dom().contains(name)
                &&& start.entries[name] is Text
                &&& reported(end.1) == seq![(name, start.entries[name]->Text_0)]
            })
        }),
{
    let inv = |o: OperationView, a: ActionView, d: Disk| flat_read_inv(request, start, o, a, d);
    assert forall|o: OperationView, a: ActionView, d: Disk, e: EventView, d2: Disk|
        #![trigger inv(o, a, d), may_answer(d, a, e, d2)]
        inv(o, a, d) && may_answer(d, a, e, d2) implies inv(next(o, e).0, next(o, e).1, d2) by {
        let after = next(o, e);
        if let OperationView::Walking { names, at, reports } = o {
            if let EventView::Text(value) = e {
                let more = reports.push((names[at], value));
                assert forall|k: int| 0 <= k < more.len() implies start.entries.dom().contains(
                    (#[trigger] more[k]).0,
                ) && start.entries[more[k].0] == Content::Text(more[k].1) by {
                    if k < reports.len() {
                        assert(more[k] == reports[k]);
                    }
                }
            }
        }
        if let OperationView::ReadingEntry { name } = o {
            if let EventView::Text(value) = e {
                let only = seq![(name, value)];
                assert(only[0] == (name, value));
            }
        }
    }
    lemma_run_keeps(inv, begun(request).0, begun(request).1, start, turns);
    let end = run_end(begun(request).0, begun(request).1, start, turns);
    if let RequestView::Get { name } = request {
        if commits(end.1) {
            let reports = reported(end.1);
            assert(start.entries.dom().contains(reports[0].0));
            assert(reports =~= seq![(name, start.entries[name]->Text_0)]);
        }
    }
}

/// The layout whose files an action touches; none for the probe that
/// resolves the layout, and for the end.
pub open spec fn layout_of_action(action: ActionView) -> Option<Mode> {
    match action {
        ActionView::ProbeContainer => None,
        ActionView::ReadContainer => Some(Mode::Container),
        ActionView::ReadEntry { .. } => Some(Mode::FlatFile),
        ActionView::ListEntries => Some(Mode::FlatFile),
        ActionView::CreateTemp { mode } => Some(mode),
        ActionView::WriteTemp { payload } => Some(
            match payload {
                PayloadView::Records(_) => Mode::Container,
                PayloadView::Text(_) => Mode::FlatFile,
            },
        ),
        ActionView::CloneAttributes => Some(Mode::Container),
        ActionView::Replace { target } => Some(target.mode()),
        ActionView::RemoveTemp { mode } => Some(mode),
        ActionView::RemoveEntry { .. } => Some(Mode::FlatFile),
        ActionView::Finish { .. } => None,
    }
}

/// The layout that an operation has resolved to; none before the probe is
/// answered, and none at the end.
pub open spec fn layout_of(op: OperationView) -> Option<Mode> {
    match op {
        OperationView::Probing { .. } => None,
        OperationView::Loading { .. } => Some(Mode::Container),
        OperationView::ReadingEntry { .. } => Some(Mode::FlatFile),
        OperationView::Listing => Some(Mode::FlatFile),
        OperationView::Walking { .. } => Some(Mode::FlatFile),
        OperationView::Creating { target, .. } => Some(target.mode()),
        OperationView::Writing { target } => Some(target.mode()),
        OperationView::Cloning => Some(Mode::Container),
        OperationView::Replacing { target } => Some(target.mode()),
        OperationView::Discarding { mode, .. } => Some(mode),
        OperationView::Removing => Some(Mode::FlatFile),
        OperationView::Finished => None,
    }
}

/// The payload of a pending write is of the kind that its target holds.
pub open spec fn well_formed(op: OperationView) -> bool {
    match op {
        OperationView::Creating { target, payload } => target is Container <==> payload is Records,
        _ => true,
    }
}

/// `action` and `after` stay within the layout `mode`: the action touches
/// no file of the other layout, and the operation goes on in `mode` or is
/// over.
pub open spec fn stays_in(mode: Mode, after: OperationView, action: ActionView) -> bool {
    &&& layout_of_action(action) is Some ==> layout_of_action(action) == Some(mode)
    &&& layout_of(after) is Some ==> layout_of(after) == Some(mode)
    &&& layout_of(after) is None ==> after is Finished
}

/// The two layouts exclude each other. Every operation begins with the
/// probe; the answer to the probe alone selects the layout; and from then
/// on each step stays within it, whatever the events.
pub proof fn law_one_layout(op: OperationView, event: EventView)
    requires
        well_formed(op),
    ensures
        ({
            let (after, action) = next(op, event);
            &&& well_formed(after)
            &&& layout_of(op) matches Some(mode) ==> stays_in(mode, after, action)
            &&& op is Probing ==> (match event {
                EventView::Exists(exists) => stays_in(crate::store::mode_of(exists), after, action),
                _ => after is Finished && action is Finish,
            })
            &&& op is Finished ==> after is Finished && action is Finish
        }),
{
}

/// Every operation begins well formed, with the probe, and has resolved no
/// layout yet.
pub proof fn law_begins_with_probe(request: RequestView)
    ensures
        well_formed(begun(request).0),
        layout_of(begun(request).0) is None,
        begun(request).1 == ActionView::ProbeContainer,
{
}

/// The store holds a container that decodes, or no container.
pub open spec fn readable(disk: Disk) -> bool {
    disk.container is None || (disk.container is Some && disk.container->0 is Records)
}

/// What was set is read back. In either layout, after a set of `name` to
/// `value` that succeeded, a lookup of `name` that succeeds reports exactly
/// `(name, value)`, whatever the store held before and whatever was set
/// before.
pub proof fn law_set_then_get(
    name: Seq<char>,
    value: Seq<char>,
    start: Disk,
    set_turns: Seq<Turn>,
    get_turns: Seq<Turn>,
)
    requires
        readable(start),
        is_run(
            begun(RequestView::Put { name, value }).0,
            begun(RequestView::Put { name, value }).1,
            start,
            set_turns,
        ),
        commits(
            run_end(
                begun(RequestView::Put { name, value }).0,
                begun(RequestView::Put { name, value }).1,
                start,
                set_turns,
            ).1,
        ),
        is_run(
            begun(RequestView::Get { name }).0,
            begun(RequestView::Get { name }).1,
            run_end(
                begun(RequestView::Put { name, value }).0,
                begun(RequestView::Put { name, value }).1,
                start,
                set_turns,
            ).2,
            get_turns,
        ),
        commits(
            run_end(
                begun(RequestView::Get { name }).0,
                begun(RequestView::Get { name }).1,
                run_end(
                    begun(RequestView::Put { name, value }).0,
                    begun(RequestView::Put { name, value }).1,
                    start,
                    set_turns,
                ).2,
                get_turns,
            ).1,
        ),
    ensures
        reported(
            run_end(
                begun(RequestView::Get { name }).0,
                begun(RequestView::Get { name }).1,
                run_end(
                    begun(RequestView::Put { name, value }).0,
                    begun(RequestView::Put { name, value }).1,
                    start,
                    set_turns,
                ).2,
                get_turns,
            ).1,
        ) == seq![(name, value)],
{
    let put = RequestView::Put { name, value };
    let get = RequestView::Get { name };
    let middle = run_end(begun(put).0, begun(put).1, start, set_turns).2;
    if start.container is Some {
        let records = start.container->0->Records_0;
        let index = sorted_by_name(records);
        let fresh = with_property(index, name, value);
        law_container_write_is_atomic(put, start, records, set_turns);
        law_container_read(get, middle, get_turns);
        law_sort_arranges(records);
        lemma_edit_keeps_sorted(index, name, value);
        law_sort_keeps_sorted(fresh);
        law_write_then_read(index, name, value);
    } else {
        law_flat_write_is_atomic(put, start, set_turns);
        law_flat_read(get, middle, get_turns);
    }
}

/// A property that was deleted is gone. In either layout, after a delete of
/// `name` that succeeded, a second delete of `name` does not succeed and
/// changes neither the container nor any flat file. In container mode this
/// is owed where no name occurs twice in the container.
pub proof fn law_delete_then_delete(
    name: Seq<char>,
    start: Disk,
    first: Seq<Turn>,
    second: Seq<Turn>,
)
    requires
        readable(start),
        start.container is Some ==> is_strictly_sorted(
            sorted_by_name(start.container->0->Records_0),
        ),
        is_run(
            begun(RequestView::Delete { name }).0,
            begun(RequestView::Delete { name }).1,
            start,
            first,
        ),
        commits(
            run_end(
                begun(RequestView::Delete { name }).0,
                begun(RequestView::Delete { name }).1,
                start,
                first,
            ).1,
        ),
        is_run(
            begun(RequestView::Delete { name }).0,
            begun(RequestView::Delete { name }).1,
            run_end(
                begun(RequestView::Delete { name }).0,
                begun(RequestView::Delete { name }).1,
                start,
                first,
            ).2,
            second,
        ),
    ensures
        ({
            let delete = RequestView::Delete { name };
            let middle = run_end(begun(delete).0, begun(delete).1, start, first).2;
            let end = run_end(begun(delete).0, begun(delete).1, middle, second);
            &&& !commits(end.1)
            &&& end.2.container == middle.container
            &&& end.2.entries == middle.entries
        }),
{
    let delete = RequestView::Delete { name };
    let middle = run_end(begun(delete).0, begun(delete).1, start, first).2;
    if start.container is Some {
        let records = start.container->0->Records_0;
        let index = sorted_by_name(records);
        let fresh = without_property(index, name);
        law_container_write_is_atomic(delete, start, records, first);
        law_container_write_is_atomic(delete, middle, fresh, second);
        law_delete_keeps_order(index, name);
        lemma_strict_is_sorted(fresh);
        law_sort_keeps_sorted(fresh);
        law_delete_twice(index, name);
    } else {
        law_flat_write_is_atomic(delete, start, first);
        law_flat_write_is_atomic(delete, middle, second);
    }
}

/// The container stays in order. Where the names of the container strictly
/// increase once sorted, so none occurs twice, a set or a delete that
/// succeeds leaves a container whose records are in strictly increasing
/// order of their names as they stand, and an enumeration of it that
/// succeeds reports names in strictly increasing order.
pub proof fn law_container_stays_in_order(
    request: RequestView,
    start: Disk,
    records: Seq<RecordView>,
    write_turns: Seq<Turn>,
    read_turns: Seq<Turn>,
)
    requires
        request is Put || request is Delete,
        start.container == Some(Content::Records(records)),
        is_strictly_sorted(sorted_by_name(records)),
        is_run(begun(request).0, begun(request).1, start, write_turns),
        commits(run_end(begun(request).0, begun(request).1, start, write_turns).1),
        is_run(
            begun(RequestView::GetAll).0,
            begun(RequestView::GetAll).1,
            run_end(begun(request).0, begun(request).1, start, write_turns).2,
            read_turns,
        ),
    ensures
        ({
            let middle = run_end(begun(request).0, begun(request).1, start, write_turns).2;
            let end = run_end(
                begun(RequestView::GetAll).0,
                begun(RequestView::GetAll).1,
                middle,
                read_turns,
            );
            &&& middle.container is Some
            &&& middle.container->0 is Records
            &&& is_strictly_sorted(middle.container->0->Records_0)
            &&& sorted_by_name(middle.container->0->Records_0) == middle.container->0->Records_0
            &&& names_increase(reported(end.1))
        }),
{
    let index = sorted_by_name(records);
    let fresh = new_records(request, index);
    let middle = run_end(begun(request).0, begun(request).1, start, write_turns).2;
    law_container_write_is_atomic(request, start, records, write_turns);
    match request {
        RequestView::Put { name, value } => law_write_keeps_order(index, name, value),
        RequestView::Delete { name } => law_delete_keeps_order(index, name),
        _ => {},
    }
    lemma_strict_is_sorted(fresh);
    law_sort_keeps_sorted(fresh);
    law_container_read(RequestView::GetAll, middle, read_turns);
    law_entries_in_order(fresh);
}

/// An enumeration of a container in which no name occurs twice reports
/// names in strictly increasing order, so none twice.
pub proof fn law_enumeration_in_order(start: Disk, records: Seq<RecordView>, turns: Seq<Turn>)
    requires
        start.container == Some(Content::Records(records)),
        is_strictly_sorted(sorted_by_name(records)),
        is_run(begun(RequestView::GetAll).0, begun(RequestView::GetAll).1, start, turns),
    ensures
        names_increase(
            reported(
                run_end(begun(RequestView::GetAll).0, begun(RequestView::GetAll).1, start, turns).1,
            ),
        ),
{
    law_container_read(RequestView::GetAll, start, turns);
    law_entries_in_order(sorted_by_name(records));
}

/// A lookup hands the sink at most one property, and none but the one
/// asked for, whatever the store holds and wherever the run stops.
pub proof fn law_lookup_reports_at_most_once(name: Seq<char>, start: Disk, turns: Seq<Turn>)
    requires
        is_run(begun(RequestView::Get { name }).0, begun(RequestView::Get { name }).1, start, turns),
    ensures
        ({
            let reports = reported(
                run_end(
                    begun(RequestView::Get { name }).0,
                    begun(RequestView::Get { name }).1,
                    start,
                    turns,
                ).1,
            );
            &&& reports.len() <= 1
            &&& reports.len() == 1 ==> reports[0].0 == name
        }),
{
    if start.container is Some {
        law_container_read(RequestView::Get { name }, start, turns);
    } else {
        law_flat_read(RequestView::Get { name }, start, turns);
    }
}

} // verus!
