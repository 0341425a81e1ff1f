//! What the node agent asks of a container runtime and of its host.

use vstd::prelude::*;

use crate::runtime::bundle::{BundleSpec, BundleSpecView};
use crate::text;

pub mod bundle;
pub mod pods;
pub mod sandbox;

verus! {

/// The states that a container can be in.
#[derive(Debug, Clone, Copy, PartialEq, Eq, Structural)]
pub enum ContainerState {
    /// Created but not started.
    Created,
    /// Its first process runs.
    Running,
    /// Its first process has exited.
    Stopped,
    /// The runtime knows no such container.
    NotFound,
}

/// Why a runtime refused.
#[derive(Debug, Clone, PartialEq)]
pub enum RuntimeError {
    NotFound(String),
    AlreadyExists(String),
    InvalidBundle { path: String, reason: String },
    Other(String),
}

#[verifier::ext_equal]
pub enum RuntimeErrorView {
    NotFound(Seq<char>),
    AlreadyExists(Seq<char>),
    InvalidBundle { path: Seq<char>, reason: Seq<char> },
    Other(Seq<char>),
}

impl DeepView for RuntimeError {
    type V = RuntimeErrorView;

    open spec fn deep_view(&self) -> RuntimeErrorView {
        match self {
            RuntimeError::NotFound(id) => RuntimeErrorView::NotFound(id@),
            RuntimeError::AlreadyExists(id) => RuntimeErrorView::AlreadyExists(id@),
            RuntimeError::InvalidBundle { path, reason } => RuntimeErrorView::InvalidBundle {
                path: path@,
                reason: reason@,
            },
            RuntimeError::Other(m) => RuntimeErrorView::Other(m@),
        }
    }
}

impl RuntimeError {
    /// The error in words.
    pub fn message(&self) -> (s: String)
        ensures
            s@ == (match self.deep_view() {
                RuntimeErrorView::NotFound(id) => "container "@ + text::quoted_chars(id)
                    + " not found"@,
                RuntimeErrorView::AlreadyExists(id) => "container "@ + text::quoted_chars(id)
                    + " already exists"@,
                RuntimeErrorView::InvalidBundle { path, reason } => "invalid bundle at "@
                    + text::quoted_chars(path) + ": "@ + reason,
                RuntimeErrorView::Other(m) => "runtime error: "@ + m,
            }),
    {
        match self {
            RuntimeError::NotFound(id) => {
                let mut s = "container ".to_owned();
                s.append(text::quoted(id.as_str()).as_str());
                s.append(" not found");
                s
            },
            RuntimeError::AlreadyExists(id) => {
                let mut s = "container ".to_owned();
                s.append(text::quoted(id.as_str()).as_str());
                s.append(" already exists");
                s
            },
            RuntimeError::InvalidBundle { path, reason } => {
                let mut s = "invalid bundle at ".to_owned();
                s.append(text::quoted(path.as_str()).as_str());
                s.append(": ");
                s.append(reason.as_str());
                s
            },
            RuntimeError::Other(m) => "runtime error: ".to_owned().concat(m.as_str()),
        }
    }
}

/// Why a command on the host failed.
#[derive(Debug, Clone, PartialEq)]
pub enum CommandError {
    /// It could not be run at all.
    NotRun(String),
    /// It ran and failed: its exit status and what it wrote to standard error.
    Failed { status: String, stderr: String },
}

#[verifier::ext_equal]
pub enum CommandErrorView {
    NotRun(Seq<char>),
    Failed { status: Seq<char>, stderr: Seq<char> },
}

impl DeepView for CommandError {
    type V = CommandErrorView;

    open spec fn deep_view(&self) -> CommandErrorView {
        match self {
            CommandError::NotRun(m) => CommandErrorView::NotRun(m@),
            CommandError::Failed { status, stderr } => CommandErrorView::Failed {
                status: status@,
                stderr: stderr@,
            },
        }
    }
}

/// Whether a failure only says that there was nothing to do: the command ran,
/// and its complaint holds some words.
pub open spec fn is_tolerable(e: CommandErrorView, words: Seq<char>) -> bool {
    match e {
        CommandErrorView::NotRun(_) => false,
        CommandErrorView::Failed { status, stderr } => text::holds(stderr, words),
    }
}

pub fn tolerable(e: &CommandError, words: &str) -> (r: bool)
    ensures
        r == is_tolerable(e.deep_view(), words@),
{
    match e {
        CommandError::NotRun(_) => false,
        CommandError::Failed { status, stderr } => text::contains(stderr.as_str(), words),
    }
}

/// What survived a restart of the node agent: one container that the runtime
/// still knows.
#[derive(Debug, Clone, PartialEq)]
pub struct RecoveredContainer {
    pub id: String,
    pub state: ContainerState,
    pub pid: Option<u32>,
}

/// One question to the runtime or the host, with its answer.
pub ghost enum CallView {
    WriteBundle { dir: Seq<char>, spec: BundleSpecView, reply: Option<Seq<char>> },
    Create { id: Seq<char>, bundle: Seq<char>, reply: Option<RuntimeErrorView> },
    Start { id: Seq<char>, reply: Option<RuntimeErrorView> },
    Kill { id: Seq<char>, signal: i32, reply: Option<RuntimeErrorView> },
    Delete { id: Seq<char>, force: bool, reply: Option<RuntimeErrorView> },
    State { id: Seq<char>, reply: Result<ContainerState, RuntimeErrorView> },
    Pid { id: Seq<char>, reply: Result<Option<u32>, RuntimeErrorView> },
    RemoveDir { dir: Seq<char> },
    Run { argv: Seq<Seq<char>>, reply: Option<CommandErrorView> },
    Clock { millis: u64 },
    Sleep { millis: u64 },
    Recover,
}

/// All that was asked, in order, with the answers.
pub type Trace = Seq<CallView>;

/// One question to the runtime or the host.
pub ghost enum RequestView {
    WriteBundle { dir: Seq<char>, spec: BundleSpecView },
    Create { id: Seq<char>, bundle: Seq<char> },
    Start { id: Seq<char> },
    Kill { id: Seq<char>, signal: i32 },
    Delete { id: Seq<char>, force: bool },
    State { id: Seq<char> },
    Pid { id: Seq<char> },
    RemoveDir { dir: Seq<char> },
    Run { argv: Seq<Seq<char>> },
    Clock,
    Sleep { millis: u64 },
    Recover,
}

impl CallView {
    pub open spec fn request(self) -> RequestView {
        match self {
            CallView::WriteBundle { dir, spec, reply } => RequestView::WriteBundle { dir, spec },
            CallView::Create { id, bundle, reply } => RequestView::Create { id, bundle },
            CallView::Start { id, reply } => RequestView::Start { id },
            CallView::Kill { id, signal, reply } => RequestView::Kill { id, signal },
            CallView::Delete { id, force, reply } => RequestView::Delete { id, force },
            CallView::State { id, reply } => RequestView::State { id },
            CallView::Pid { id, reply } => RequestView::Pid { id },
            CallView::RemoveDir { dir } => RequestView::RemoveDir { dir },
            CallView::Run { argv, reply } => RequestView::Run { argv },
            CallView::Clock { millis } => RequestView::Clock,
            CallView::Sleep { millis } => RequestView::Sleep { millis },
            CallView::Recover => RequestView::Recover,
        }
    }

    pub open spec fn failed(self) -> bool {
        match self {
            CallView::WriteBundle { reply, .. } => reply is Some,
            CallView::Create { reply, .. } => reply is Some,
            CallView::Start { reply, .. } => reply is Some,
            CallView::Kill { reply, .. } => reply is Some,
            CallView::Delete { reply, .. } => reply is Some,
            CallView::State { reply, .. } => reply is Err,
            CallView::Pid { reply, .. } => reply is Err,
            CallView::Run { reply, .. } => reply is Some,
            _ => false,
        }
    }
}

/// The error that came back, if one did.
pub open spec fn failure<T, E: DeepView>(r: Result<T, E>) -> Option<E::V> {
    match r {
        Ok(_) => None,
        Err(e) => Some(e.deep_view()),
    }
}

/// A reply, as a model.
pub open spec fn answer<T>(r: Result<T, RuntimeError>) -> Result<T, RuntimeErrorView> {
    match r {
        Ok(v) => Ok(v),
        Err(e) => Err(e.deep_view()),
    }
}

/// What a container runtime and its host do for the node agent. The trace is
/// the list of all that was asked, with the answers.
pub trait RuntimeClient: Sized {
    spec fn trace(&self) -> Trace;

    /// Writes a container's bundle into a directory, which is made if it is
    /// missing.
    fn write_bundle(&mut self, dir: &str, spec: &BundleSpec) -> (r: Result<(), String>)
        ensures
            final(self).trace() == old(self).trace().push(
                CallView::WriteBundle { dir: dir@, spec: spec.deep_view(), reply: failure(r) },
            ),
    ;

    /// Creates a container from a bundle.
    fn create_container(&mut self, id: &str, bundle_path: &str) -> (r: Result<(), RuntimeError>)
        ensures
            final(self).trace() == old(self).trace().push(
                CallView::Create { id: id@, bundle: bundle_path@, reply: failure(r) },
            ),
    ;

    /// Starts a container that was created.
    fn start_container(&mut self, id: &str) -> (r: Result<(), RuntimeError>)
        ensures
            final(self).trace() == old(self).trace().push(
                CallView::Start { id: id@, reply: failure(r) },
            ),
    ;

    /// Sends a signal to a container's first process.
    fn kill_container(&mut self, id: &str, signal: i32) -> (r: Result<(), RuntimeError>)
        ensures
            final(self).trace() == old(self).trace().push(
                CallView::Kill { id: id@, signal, reply: failure(r) },
            ),
    ;

    /// Forgets a container; with `force`, kills it first.
    fn delete_container(&mut self, id: &str, force: bool) -> (r: Result<(), RuntimeError>)
        ensures
            final(self).trace() == old(self).trace().push(
                CallView::Delete { id: id@, force, reply: failure(r) },
            ),
    ;

    /// The state a container is in.
    fn container_state(&mut self, id: &str) -> (r: Result<ContainerState, RuntimeError>)
        ensures
            final(self).trace() == old(self).trace().push(
                CallView::State { id: id@, reply: answer(r) },
            ),
    ;

    /// The number of a container's first process, if it runs.
    fn container_pid(&mut self, id: &str) -> (r: Result<Option<u32>, RuntimeError>)
        ensures
            final(self).trace() == old(self).trace().push(
                CallView::Pid { id: id@, reply: answer(r) },
            ),
    ;

    /// Finds the containers that survived a restart of the node agent.
    fn recover_all(&mut self) -> (r: Result<Vec<RecoveredContainer>, RuntimeError>)
        ensures
            final(self).trace() == old(self).trace().push(CallView::Recover),
    ;

    /// Removes a directory and what it holds. Whether that worked does not
    /// matter: what is left over does no harm.
    fn remove_dir(&mut self, dir: &str)
        ensures
            final(self).trace() == old(self).trace().push(CallView::RemoveDir { dir: dir@ }),
    ;

    /// Runs a command on the host.
    fn run_command(&mut self, argv: &Vec<String>) -> (r: Result<(), CommandError>)
        ensures
            final(self).trace() == old(self).trace().push(
                CallView::Run { argv: argv.deep_view(), reply: failure(r) },
            ),
    ;

    /// The time on a clock that only goes forward, in milliseconds.
    fn now_millis(&mut self) -> (millis: u64)
        ensures
            final(self).trace() == old(self).trace().push(CallView::Clock { millis }),
    ;

    /// Waits for at least so many milliseconds.
    fn sleep_millis(&mut self, millis: u64)
        ensures
            final(self).trace() == old(self).trace().push(CallView::Sleep { millis }),
    ;
}

/// What was asked since a trace was taken.
pub open spec fn since(before: Seq<CallView>, after: Seq<CallView>) -> Seq<CallView> {
    after.skip(before.len() as int)
}

pub proof fn since_is_the_rest(before: Seq<CallView>, calls: Seq<CallView>)
    ensures
        before.is_prefix_of(before + calls),
        since(before, before + calls) == calls,
{
    assert((before + calls).skip(before.len() as int) =~= calls);
    assert((before + calls).subrange(0, before.len() as int) =~= before);
}

pub proof fn calls_add_up(
    start: Seq<CallView>,
    calls: Seq<CallView>,
    middle: Seq<CallView>,
    end: Seq<CallView>,
)
    requires
        middle == start + calls,
        middle.is_prefix_of(end),
    ensures
        end == start + (calls + since(middle, end)),
        start.is_prefix_of(end),
        since(start, end) == calls + since(middle, end),
{
    let more = since(middle, end);
    assert(end =~= middle + more) by {
        assert(end.subrange(0, middle.len() as int) == middle);
        assert forall|i: int| 0 <= i < end.len() implies end[i] == (middle + more)[i] by {
            if i < middle.len() {
                assert(end.subrange(0, middle.len() as int)[i] == end[i]);
            }
        }
    }
    assert(middle + more =~= start + (calls + more));
    since_is_the_rest(start, calls + more);
}

/// Whether calls carry out a plan up to the first failure: they ask what is
/// planned, in order, and stop early only after an answer that is a failure.
pub open spec fn carried_out(plan: Seq<RequestView>, calls: Seq<CallView>) -> bool {
    &&& calls.len() <= plan.len()
    &&& forall|i: int| 0 <= i < calls.len() ==> (#[trigger] calls[i]).request() == plan[i]
    &&& forall|i: int| 0 <= i < calls.len() - 1 ==> !(#[trigger] calls[i]).failed()
    &&& calls.len() < plan.len() ==> calls.len() > 0 && calls.last().failed()
}

/// Whether a plan was carried out in full, without a failure.
pub open spec fn completed(plan: Seq<RequestView>, calls: Seq<CallView>) -> bool {
    carried_out(plan, calls) && calls.len() == plan.len() && (calls.len() > 0 ==> !calls.last(
    ).failed())
}

/// Marks where one item's calls end, and the state at that point.
pub open spec fn passes<S>(cut: int, middle: S) -> bool {
    true
}

/// Whether calls come from handling some items one after another, each from
/// the state that the one before it left.
pub open spec fn chained<S, T>(
    items: Seq<T>,
    step: spec_fn(S, T, Seq<CallView>, S) -> bool,
    before: S,
    calls: Seq<CallView>,
    after: S,
) -> bool
    decreases items.len(),
{
    if items.len() == 0 {
        calls.len() == 0 && after == before
    } else {
        exists|cut: int, middle: S|
            #[trigger] passes(cut, middle) && 0 <= cut <= calls.len() && chained(
                items.drop_last(),
                step,
                before,
                calls.take(cut),
                middle,
            ) && step(middle, items.last(), calls.skip(cut), after)
    }
}

pub proof fn chain_grows<S, T>(
    items: Seq<T>,
    step: spec_fn(S, T, Seq<CallView>, S) -> bool,
    before: S,
    calls: Seq<CallView>,
    middle: S,
    more: Seq<CallView>,
    after: S,
)
    requires
        items.len() > 0,
        chained(items.drop_last(), step, before, calls, middle),
        step(middle, items.last(), more, after),
    ensures
        chained(items, step, before, calls + more, after),
{
    let all = calls + more;
    let cut = calls.len() as int;
    assert(all.take(cut) =~= calls);
    assert(all.skip(cut) =~= more);
    assert(passes(cut, middle));
}

} // verus!
