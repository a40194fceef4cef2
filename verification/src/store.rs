//! The store facade as a machine without input or output: each public
//! operation is an [`Operation`] that asks for one [`Action`] at a time and
//! is told what came of it by an [`Event`].
//!
//! The store has two layouts. In container mode every property lives in one
//! structured file, which is only ever replaced whole: the new content goes
//! to a temporary file beside it, which then takes its name. In flat-file
//! mode each property is a file of its own, named after the property.

use vstd::prelude::*;
use crate::error::StoreError;
use crate::index::{
    found_at, live_entries, sorted_by_name, value_of, with_property, without_property,
    PropertyIndex,
};
use crate::record::{pairs_of, views_of, Property, PropertyRecord, RecordView};

verus! {

/// The layout that the store has at the time of a call.
#[derive(Debug, Clone, Copy, PartialEq, Eq, Structural)]
pub enum Mode {
    /// All properties live in the container file.
    Container,
    /// Each property is a file of its own.
    FlatFile,
}

/// The layout of a store whose container file exists, or does not.
pub open spec fn mode_of(container_exists: bool) -> Mode {
    if container_exists {
        Mode::Container
    } else {
        Mode::FlatFile
    }
}

/// Resolves the layout from whether the container file exists. Nothing else
/// selects it, and no call remembers it.
pub fn check_proto(container_exists: bool) -> (mode: Mode)
    ensures
        mode == mode_of(container_exists),
{
    if container_exists {
        Mode::Container
    } else {
        Mode::FlatFile
    }
}

/// What a caller asks of the store.
#[derive(Debug, PartialEq, Eq)]
pub enum Request {
    /// Look one property up.
    Get { name: String },
    /// Enumerate every property.
    GetAll,
    /// Set a property, new or not.
    Put { name: String, value: String },
    /// Delete a property.
    Delete { name: String },
}

/// A request, as text.
pub enum RequestView {
    Get { name: Seq<char> },
    GetAll,
    Put { name: Seq<char>, value: Seq<char> },
    Delete { name: Seq<char> },
}

impl View for Request {
    type V = RequestView;

    open spec fn view(&self) -> RequestView {
        match self {
            Request::Get { name } => RequestView::Get { name: name@ },
            Request::GetAll => RequestView::GetAll,
            Request::Put { name, value } => RequestView::Put { name: name@, value: value@ },
            Request::Delete { name } => RequestView::Delete { name: name@ },
        }
    }
}

/// The file that a write replaces.
#[derive(Debug, PartialEq, Eq)]
pub enum Target {
    /// The container file.
    Container,
    /// The flat file of one property.
    Entry { name: String },
}

/// A target, as text.
pub enum TargetView {
    Container,
    Entry { name: Seq<char> },
}

impl View for Target {
    type V = TargetView;

    open spec fn view(&self) -> TargetView {
        match self {
            Target::Container => TargetView::Container,
            Target::Entry { name } => TargetView::Entry { name: name@ },
        }
    }
}

impl TargetView {
    /// The layout that the target belongs to.
    pub open spec fn mode(self) -> Mode {
        match self {
            TargetView::Container => Mode::Container,
            TargetView::Entry { .. } => Mode::FlatFile,
        }
    }
}

/// The whole content of a file to be written.
#[derive(Debug, PartialEq, Eq)]
pub enum Payload {
    /// The records of the container, sorted by name.
    Records(Vec<PropertyRecord>),
    /// The value of one property.
    Text(String),
}

/// A payload, as text.
pub enum PayloadView {
    Records(Seq<RecordView>),
    Text(Seq<char>),
}

impl View for Payload {
    type V = PayloadView;

    open spec fn view(&self) -> PayloadView {
        match self {
            Payload::Records(records) => PayloadView::Records(views_of(records@)),
            Payload::Text(text) => PayloadView::Text(text@),
        }
    }
}

/// How an operation ended: whether it succeeded, and the properties to
/// hand to the caller's sink, in this order.
#[derive(Debug, PartialEq, Eq)]
pub struct Outcome {
    pub result: Result<(), StoreError>,
    pub reports: Vec<Property>,
}

/// An outcome, as text.
pub struct OutcomeView {
    pub result: Result<(), StoreError>,
    pub reports: Seq<(Seq<char>, Seq<char>)>,
}

impl View for Outcome {
    type V = OutcomeView;

    open spec fn view(&self) -> OutcomeView {
        OutcomeView { result: self.result, reports: pairs_of(self.reports@) }
    }
}

impl Outcome {
    /// Whether the operation committed.
    pub fn success(&self) -> (ok: bool)
        ensures
            ok == (self@.result is Ok),
    {
        self.result.is_ok()
    }
}

/// One thing for the caller to do on the operation's behalf.
#[derive(Debug, PartialEq, Eq)]
pub enum Action {
    /// Find out whether the container file exists.
    ProbeContainer,
    /// Read the container and decode its records.
    ReadContainer,
    /// Read the flat file of `name` as text.
    ReadEntry { name: String },
    /// List the names in the flat-file directory.
    ListEntries,
    /// Create a fresh, uniquely named temporary file in the directory of
    /// the file to be replaced.
    CreateTemp { mode: Mode },
    /// Write `payload` to the temporary file and close it.
    WriteTemp { payload: Payload },
    /// Copy the attributes of the container onto the temporary file.
    CloneAttributes,
    /// Rename the temporary file over `target`.
    Replace { target: Target },
    /// Remove the temporary file.
    RemoveTemp { mode: Mode },
    /// Unlink the flat file of `name`.
    RemoveEntry { name: String },
    /// Nothing more: hand the reports to the sink and return.
    Finish { outcome: Outcome },
}

/// An action, as text.
pub enum ActionView {
    ProbeContainer,
    ReadContainer,
    ReadEntry { name: Seq<char> },
    ListEntries,
    CreateTemp { mode: Mode },
    WriteTemp { payload: PayloadView },
    CloneAttributes,
    Replace { target: TargetView },
    RemoveTemp { mode: Mode },
    RemoveEntry { name: Seq<char> },
    Finish { outcome: OutcomeView },
}

impl View for Action {
    type V = ActionView;

    open spec fn view(&self) -> ActionView {
        match self {
            Action::ProbeContainer => ActionView::ProbeContainer,
            Action::ReadContainer => ActionView::ReadContainer,
            Action::ReadEntry { name } => ActionView::ReadEntry { name: name@ },
            Action::ListEntries => ActionView::ListEntries,
            Action::CreateTemp { mode } => ActionView::CreateTemp { mode: *mode },
            Action::WriteTemp { payload } => ActionView::WriteTemp { payload: payload@ },
            Action::CloneAttributes => ActionView::CloneAttributes,
            Action::Replace { target } => ActionView::Replace { target: target@ },
            Action::RemoveTemp { mode } => ActionView::RemoveTemp { mode: *mode },
            Action::RemoveEntry { name } => ActionView::RemoveEntry { name: name@ },
            Action::Finish { outcome } => ActionView::Finish { outcome: outcome@ },
        }
    }
}

/// What came of the action that was asked for.
#[derive(Debug, PartialEq, Eq)]
pub enum Event {
    /// Whether the container file exists.
    Exists(bool),
    /// The records that the container decoded to, in the order found.
    Records(Vec<PropertyRecord>),
    /// The text that a flat file holds.
    Text(String),
    /// The names found in the flat-file directory; `None` stands for a
    /// name that is not valid text.
    Names(Vec<Option<String>>),
    /// The action was done and has nothing to hand back.
    Done,
    /// The action failed.
    Failed(StoreError),
}

/// An event, as text.
pub enum EventView {
    Exists(bool),
    Records(Seq<RecordView>),
    Text(Seq<char>),
    Names(Seq<Option<Seq<char>>>),
    Done,
    Failed(StoreError),
}

/// The texts of a run of strings, one for one.
pub open spec fn texts_of(names: Seq<String>) -> Seq<Seq<char>> {
    names.map_values(|s: String| s@)
}

/// The texts of a run of names that may not be text, one for one.
pub open spec fn listed(names: Seq<Option<String>>) -> Seq<Option<Seq<char>>> {
    names.map_values(|s: Option<String>| crate::record::text_of(s))
}

impl View for Event {
    type V = EventView;

    open spec fn view(&self) -> EventView {
        match self {
            Event::Exists(exists) => EventView::Exists(*exists),
            Event::Records(records) => EventView::Records(views_of(records@)),
            Event::Text(text) => EventView::Text(text@),
            Event::Names(names) => EventView::Names(listed(names@)),
            Event::Done => EventView::Done,
            Event::Failed(error) => EventView::Failed(*error),
        }
    }
}

/// An operation of the store, between two of its actions.
#[derive(Debug, PartialEq, Eq)]
pub enum Operation {
    /// Waiting to learn the layout.
    Probing { request: Request },
    /// Container mode: waiting for the records of the container.
    Loading { request: Request },
    /// Flat-file mode: waiting for the text of one property.
    ReadingEntry { name: String },
    /// Flat-file mode: waiting for the names in the directory.
    Listing,
    /// Flat-file mode: waiting for the text of `names[at]`; `reports` holds
    /// what the names before it gave.
    Walking { names: Vec<String>, at: usize, reports: Vec<Property> },
    /// Waiting for the temporary file that `payload` goes into.
    Creating { target: Target, payload: Payload },
    /// Waiting for the payload to be written in full.
    Writing { target: Target },
    /// Container mode: waiting for the attributes to be copied.
    Cloning,
    /// Waiting for the temporary file to take the place of `target`.
    Replacing { target: Target },
    /// Waiting for the temporary file to be removed after `error`.
    Discarding { mode: Mode, error: StoreError },
    /// Flat-file mode: waiting for the file of a property to be unlinked.
    Removing,
    /// Over.
    Finished,
}

/// An operation, as text.
pub enum OperationView {
    Probing { request: RequestView },
    Loading { request: RequestView },
    ReadingEntry { name: Seq<char> },
    Listing,
    Walking { names: Seq<Seq<char>>, at: int, reports: Seq<(Seq<char>, Seq<char>)> },
    Creating { target: TargetView, payload: PayloadView },
    Writing { target: TargetView },
    Cloning,
    Replacing { target: TargetView },
    Discarding { mode: Mode, error: StoreError },
    Removing,
    Finished,
}

impl View for Operation {
    type V = OperationView;

    open spec fn view(&self) -> OperationView {
        match self {
            Operation::Probing { request } => OperationView::Probing { request: request@ },
            Operation::Loading { request } => OperationView::Loading { request: request@ },
            Operation::ReadingEntry { name } => OperationView::ReadingEntry { name: name@ },
            Operation::Listing => OperationView::Listing,
            Operation::Walking { names, at, reports } => OperationView::Walking {
                names: texts_of(names@),
                at: *at as int,
                reports: pairs_of(reports@),
            },
            Operation::Creating { target, payload } => OperationView::Creating {
                target: target@,
                payload: payload@,
            },
            Operation::Writing { target } => OperationView::Writing { target: target@ },
            Operation::Cloning => OperationView::Cloning,
            Operation::Replacing { target } => OperationView::Replacing { target: target@ },
            Operation::Discarding { mode, error } => OperationView::Discarding {
                mode: *mode,
                error: *error,
            },
            Operation::Removing => OperationView::Removing,
            Operation::Finished => OperationView::Finished,
        }
    }
}

/// The operation ends with `error` and reports nothing.
pub open spec fn stopped(error: StoreError) -> (OperationView, ActionView) {
    (
        OperationView::Finished,
        ActionView::Finish { outcome: OutcomeView { result: Err(error), reports: Seq::empty() } },
    )
}

/// The operation ends well and reports `reports`.
pub open spec fn finished(reports: Seq<(Seq<char>, Seq<char>)>) -> (OperationView, ActionView) {
    (
        OperationView::Finished,
        ActionView::Finish { outcome: OutcomeView { result: Ok(()), reports } },
    )
}

/// The caller answered with an event that the pending action cannot give:
/// the operation ends as failed.
pub open spec fn misused() -> (OperationView, ActionView) {
    stopped(StoreError::IoFailure)
}

/// The write of `payload` over `target` begins.
pub open spec fn write_begun(target: TargetView, payload: PayloadView) -> (
    OperationView,
    ActionView,
) {
    (OperationView::Creating { target, payload }, ActionView::CreateTemp { mode: target.mode() })
}

/// The write failed with `error` after the temporary file was made: the
/// file is removed, and nothing else is touched.
pub open spec fn discarded(mode: Mode, error: StoreError) -> (OperationView, ActionView) {
    (OperationView::Discarding { mode, error }, ActionView::RemoveTemp { mode })
}

/// The first step of `request` in flat-file mode.
pub open spec fn flat_begun(request: RequestView) -> (OperationView, ActionView) {
    match request {
        RequestView::Get { name } => (
            OperationView::ReadingEntry { name },
            ActionView::ReadEntry { name },
        ),
        RequestView::GetAll => (OperationView::Listing, ActionView::ListEntries),
        RequestView::Put { name, value } => write_begun(
            TargetView::Entry { name },
            PayloadView::Text(value),
        ),
        RequestView::Delete { name } => (
            OperationView::Removing,
            ActionView::RemoveEntry { name },
        ),
    }
}

/// What `request` does with the index of the container.
pub open spec fn container_loaded(request: RequestView, index: Seq<RecordView>) -> (
    OperationView,
    ActionView,
) {
    match request {
        RequestView::Get { name } => finished(
            match value_of(index, name) {
                Some(value) => seq![(name, value)],
                None => Seq::empty(),
            },
        ),
        RequestView::GetAll => finished(live_entries(index)),
        RequestView::Put { name, value } => write_begun(
            TargetView::Container,
            PayloadView::Records(with_property(index, name, value)),
        ),
        RequestView::Delete { name } => if found_at(index, name) is Ok {
            write_begun(TargetView::Container, PayloadView::Records(without_property(index, name)))
        } else {
            stopped(StoreError::NotFound)
        },
    }
}

/// The names that are valid text, in the order listed.
pub open spec fn valid_names(names: Seq<Option<Seq<char>>>) -> Seq<Seq<char>>
    decreases names.len(),
{
    if names.len() == 0 {
        Seq::empty()
    } else {
        let before = valid_names(names.drop_last());
        match names.last() {
            Some(name) => before.push(name),
            None => before,
        }
    }
}

/// The enumeration of flat files goes on with `names[at]`, or ends.
pub open spec fn walked(names: Seq<Seq<char>>, at: int, reports: Seq<(Seq<char>, Seq<char>)>) -> (
    OperationView,
    ActionView,
) {
    if 0 <= at < names.len() {
        (OperationView::Walking { names, at, reports }, ActionView::ReadEntry { name: names[at] })
    } else {
        finished(reports)
    }
}

/// The operation after `event`, and the action it asks for next.
pub open spec fn next(op: OperationView, event: EventView) -> (OperationView, ActionView) {
    match op {
        OperationView::Probing { request } => match event {
            EventView::Exists(exists) => match mode_of(exists) {
                Mode::Container => (OperationView::Loading { request }, ActionView::ReadContainer),
                Mode::FlatFile => flat_begun(request),
            },
            _ => misused(),
        },
        OperationView::Loading { request } => match event {
            EventView::Records(records) => container_loaded(request, sorted_by_name(records)),
            EventView::Failed(error) => if error == StoreError::NotFound && request is Put {
                container_loaded(request, Seq::empty())
            } else {
                stopped(error)
            },
            _ => misused(),
        },
        OperationView::ReadingEntry { name } => match event {
            EventView::Text(value) => finished(seq![(name, value)]),
            EventView::Failed(error) => stopped(error),
            _ => misused(),
        },
        OperationView::Listing => match event {
            EventView::Names(names) => walked(valid_names(names), 0, Seq::empty()),
            EventView::Failed(error) => stopped(error),
            _ => misused(),
        },
        OperationView::Walking { names, at, reports } => if 0 <= at < names.len() {
            match event {
                EventView::Text(value) => walked(names, at + 1, reports.push((names[at], value))),
                EventView::Failed(_) => walked(names, at + 1, reports),
                _ => misused(),
            }
        } else {
            misused()
        },
        OperationView::Creating { target, payload } => match event {
            EventView::Done => (
                OperationView::Writing { target },
                ActionView::WriteTemp { payload },
            ),
            EventView::Failed(error) => stopped(error),
            _ => misused(),
        },
        OperationView::Writing { target } => match event {
            EventView::Done => match target {
                TargetView::Container => (OperationView::Cloning, ActionView::CloneAttributes),
                TargetView::Entry { .. } => (
                    OperationView::Replacing { target },
                    ActionView::Replace { target },
                ),
            },
            EventView::Failed(error) => discarded(target.mode(), error),
            _ => discarded(target.mode(), StoreError::IoFailure),
        },
        OperationView::Cloning => match event {
            EventView::Done | EventView::Failed(_) => (
                OperationView::Replacing { target: TargetView::Container },
                ActionView::Replace { target: TargetView::Container },
            ),
            _ => discarded(Mode::Container, StoreError::IoFailure),
        },
        OperationView::Replacing { target } => match event {
            EventView::Done => finished(Seq::empty()),
            EventView::Failed(error) => discarded(target.mode(), error),
            _ => discarded(target.mode(), StoreError::IoFailure),
        },
        OperationView::Discarding { mode, error } => stopped(error),
        OperationView::Removing => match event {
            EventView::Done => finished(Seq::empty()),
            EventView::Failed(error) => stopped(error),
            _ => misused(),
        },
        OperationView::Finished => misused(),
    }
}

/// The operation with which `request` begins, and its first action: every
/// call first asks which layout the store has.
pub open spec fn begun(request: RequestView) -> (OperationView, ActionView) {
    (OperationView::Probing { request }, ActionView::ProbeContainer)
}

fn stop(error: StoreError) -> (r: (Operation, Action))
    ensures
        (r.0@, r.1@) == stopped(error),
{
    let outcome = Outcome { result: Err(error), reports: Vec::new() };
    assert(pairs_of(outcome.reports@) =~= Seq::empty());
    (Operation::Finished, Action::Finish { outcome })
}

fn finish(reports: Vec<Property>) -> (r: (Operation, Action))
    ensures
        (r.0@, r.1@) == finished(pairs_of(reports@)),
{
    (Operation::Finished, Action::Finish { outcome: Outcome { result: Ok(()), reports } })
}

fn succeed() -> (r: (Operation, Action))
    ensures
        (r.0@, r.1@) == finished(Seq::empty()),
{
    let reports: Vec<Property> = Vec::new();
    assert(pairs_of(reports@) =~= Seq::empty());
    finish(reports)
}

fn begin_write(target: Target, payload: Payload) -> (r: (Operation, Action))
    ensures
        (r.0@, r.1@) == write_begun(target@, payload@),
{
    let mode = target_mode(&target);
    (Operation::Creating { target, payload }, Action::CreateTemp { mode })
}

fn discard(mode: Mode, error: StoreError) -> (r: (Operation, Action))
    ensures
        (r.0@, r.1@) == discarded(mode, error),
{
    (Operation::Discarding { mode, error }, Action::RemoveTemp { mode })
}

/// The layout that a target belongs to.
pub fn target_mode(target: &Target) -> (mode: Mode)
    ensures
        mode == target@.mode(),
{
    match target {
        Target::Container => Mode::Container,
        Target::Entry { .. } => Mode::FlatFile,
    }
}

fn begin_flat(request: Request) -> (r: (Operation, Action))
    ensures
        (r.0@, r.1@) == flat_begun(request@),
{
    match request {
        Request::Get { name } => {
            let wanted = name.clone();
            (Operation::ReadingEntry { name }, Action::ReadEntry { name: wanted })
        },
        Request::GetAll => (Operation::Listing, Action::ListEntries),
        Request::Put { name, value } => begin_write(Target::Entry { name }, Payload::Text(value)),
        Request::Delete { name } => (Operation::Removing, Action::RemoveEntry { name }),
    }
}

fn loaded(request: Request, index: PropertyIndex) -> (r: (Operation, Action))
    ensures
        (r.0@, r.1@) == container_loaded(request@, index@),
{
    let mut index = index;
    match request {
        Request::Get { name } => {
            let mut reports: Vec<Property> = Vec::new();
            match index.lookup(name.as_str()) {
                Some(value) => {
                    let property = Property { name, value };
                    assert(pairs_of(reports@.push(property)) =~= seq![property@]);
                    reports.push(property);
                },
                None => {
                    assert(pairs_of(reports@) =~= Seq::empty());
                },
            }
            finish(reports)
        },
        Request::GetAll => finish(index.entries()),
        Request::Put { name, value } => {
            index.upsert(name.as_str(), value.as_str());
            begin_write(Target::Container, Payload::Records(index.into_records()))
        },
        Request::Delete { name } => {
            if index.remove(name.as_str()) {
                begin_write(Target::Container, Payload::Records(index.into_records()))
            } else {
                stop(StoreError::NotFound)
            }
        },
    }
}

/// The name of a listed entry, where it is valid text. An entry whose name
/// is not is left out of the enumeration; nothing else comes of it.
pub fn entry_name(entry: &Option<String>) -> (name: Result<String, StoreError>)
    ensures
        match name {
            Ok(text) => crate::record::text_of(*entry) == Some(text@),
            Err(error) => *entry is None && error == StoreError::NameInvalid,
        },
{
    match entry {
        Some(text) => Ok(text.clone()),
        None => Err(StoreError::NameInvalid),
    }
}

/// The names that are valid text, in the order listed.
fn keep_valid(names: Vec<Option<String>>) -> (valid: Vec<String>)
    ensures
        texts_of(valid@) == valid_names(listed(names@)),
{
    let mut valid: Vec<String> = Vec::new();
    let mut i: usize = 0;
    assert(texts_of(valid@) =~= valid_names(listed(names@).take(0)));
    while i < names.len()
        invariant
            i <= names.len(),
            texts_of(valid@) == valid_names(listed(names@).take(i as int)),
        decreases names.len() - i,
    {
        proof {
            let all = listed(names@);
            assert(all.take(i + 1).drop_last() =~= all.take(i as int));
            assert(all.take(i + 1).last() == all[i as int]);
        }
        match entry_name(&names[i]) {
            Ok(name) => {
                assert(texts_of(valid@.push(name)) =~= texts_of(valid@).push(name@));
                valid.push(name);
            },
            Err(_) => {},
        }
        i += 1;
    }
    assert(listed(names@).take(names@.len() as int) =~= listed(names@));
    valid
}

fn walk(names: Vec<String>, at: usize, reports: Vec<Property>) -> (r: (Operation, Action))
    ensures
        (r.0@, r.1@) == walked(texts_of(names@), at as int, pairs_of(reports@)),
{
    if at < names.len() {
        let name = names[at].clone();
        (Operation::Walking { names, at, reports }, Action::ReadEntry { name })
    } else {
        finish(reports)
    }
}

/// Begins a lookup of the property `name`. The sink is owed at most one
/// report.
pub fn persist_get_prop(name: &str) -> (r: (Operation, Action))
    ensures
        (r.0@, r.1@) == begun(RequestView::Get { name: name@ }),
{
    (Operation::Probing { request: Request::Get { name: name.to_owned() } }, Action::ProbeContainer)
}

/// Begins the enumeration of every property.
pub fn persist_get_props() -> (r: (Operation, Action))
    ensures
        (r.0@, r.1@) == begun(RequestView::GetAll),
{
    (Operation::Probing { request: Request::GetAll }, Action::ProbeContainer)
}

/// Begins the deletion of the property `name`.
pub fn persist_delete_prop(name: &str) -> (r: (Operation, Action))
    ensures
        (r.0@, r.1@) == begun(RequestView::Delete { name: name@ }),
{
    (
        Operation::Probing { request: Request::Delete { name: name.to_owned() } },
        Action::ProbeContainer,
    )
}

/// Begins setting the property `name` to `value`, whether it is new or not.
pub fn persist_set_prop(name: &str, value: &str) -> (r: (Operation, Action))
    ensures
        (r.0@, r.1@) == begun(RequestView::Put { name: name@, value: value@ }),
{
    (
        Operation::Probing {
            request: Request::Put { name: name.to_owned(), value: value.to_owned() },
        },
        Action::ProbeContainer,
    )
}

impl Operation {
    /// Takes what came of the pending action and says what to do next.
    pub fn step(self, event: Event) -> (r: (Operation, Action))
        ensures
            (r.0@, r.1@) == next(self@, event@),
    {
        match self {
            Operation::Probing { request } => match event {
                Event::Exists(exists) => match check_proto(exists) {
                    Mode::Container => (Operation::Loading { request }, Action::ReadContainer),
                    Mode::FlatFile => begin_flat(request),
                },
                _ => stop(StoreError::IoFailure),
            },
            Operation::Loading { request } => match event {
                Event::Records(records) => loaded(request, PropertyIndex::decode(records)),
                Event::Failed(error) => match error {
                    StoreError::NotFound => match request {
                        Request::Put { name, value } => loaded(
                            Request::Put { name, value },
                            PropertyIndex::new(),
                        ),
                        _ => stop(error),
                    },
                    _ => stop(error),
                },
                _ => stop(StoreError::IoFailure),
            },
            Operation::ReadingEntry { name } => match event {
                Event::Text(value) => {
                    let mut reports: Vec<Property> = Vec::new();
                    let property = Property { name, value };
                    assert(pairs_of(reports@.push(property)) =~= seq![property@]);
                    reports.push(property);
                    finish(reports)
                },
                Event::Failed(error) => stop(error),
                _ => stop(StoreError::IoFailure),
            },
            Operation::Listing => match event {
                Event::Names(names) => {
                    let reports: Vec<Property> = Vec::new();
                    assert(pairs_of(reports@) =~= Seq::empty());
                    walk(keep_valid(names), 0, reports)
                },
                Event::Failed(error) => stop(error),
                _ => stop(StoreError::IoFailure),
            },
            Operation::Walking { names, at, reports } => {
                if at < names.len() {
                    match event {
                        Event::Text(value) => {
                            let mut reports = reports;
                            let property = Property { name: names[at].clone(), value };
                            assert(pairs_of(reports@.push(property)) =~= pairs_of(reports@).push(
                                property@,
                            ));
                            reports.push(property);
                            walk(names, at + 1, reports)
                        },
                        Event::Failed(_) => walk(names, at + 1, reports),
                        _ => stop(StoreError::IoFailure),
                    }
                } else {
                    stop(StoreError::IoFailure)
                }
            },
            Operation::Creating { target, payload } => match event {
                Event::Done => (Operation::Writing { target }, Action::WriteTemp { payload }),
                Event::Failed(error) => stop(error),
                _ => stop(StoreError::IoFailure),
            },
            Operation::Writing { target } => match event {
                Event::Done => match target {
                    Target::Container => (Operation::Cloning, Action::CloneAttributes),
                    Target::Entry { name } => {
                        let entry = name.clone();
                        (
                            Operation::Replacing { target: Target::Entry { name } },
                            Action::Replace { target: Target::Entry { name: entry } },
                        )
                    },
                },
                Event::Failed(error) => discard(target_mode(&target), error),
                _ => discard(target_mode(&target), StoreError::IoFailure),
            },
            Operation::Cloning => match event {
                Event::Done | Event::Failed(_) => (
                    Operation::Replacing { target: Target::Container },
                    Action::Replace { target: Target::Container },
                ),
                _ => discard(Mode::Container, StoreError::IoFailure),
            },
            Operation::Replacing { target } => match event {
                Event::Done => succeed(),
                Event::Failed(error) => discard(target_mode(&target), error),
                _ => discard(target_mode(&target), StoreError::IoFailure),
            },
            Operation::Discarding { mode, error } => stop(error),
            Operation::Removing => match event {
                Event::Done => succeed(),
                Event::Failed(error) => stop(error),
                _ => stop(StoreError::IoFailure),
            },
            Operation::Finished => stop(StoreError::IoFailure),
        }
    }

    /// Whether the operation is over.
    pub fn is_finished(&self) -> (over: bool)
        ensures
            over == (self@ is Finished),
    {
        match self {
            Operation::Finished => true,
            _ => false,
        }
    }
}

} // verus!
