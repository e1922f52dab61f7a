//! The build dialect: `build [...]`, `task name [body]` and
//! `run-task 'name`.
//!
//! Tasks are named bodies in a registry. Running a task first runs its
//! dependencies (the words in its body that name registered tasks, in
//! order), each at most once, then evaluates the rest of its body. The
//! evaluation of a body is the interpreter's work: a run is a state machine
//! whose `step` either walks one element, finishes a task, or hands a block
//! to the caller to evaluate.
use vstd::prelude::*;

use crate::value::{clone_value, kind, kind_name, kind_of, lemma_view_items, view_items, Kind, Value, ValueView};

verus! {

broadcast use vstd::string::group_string_axioms;

// ---------------------------------------------------------------------------
// The task registry
// ---------------------------------------------------------------------------

/// The tasks known to the interpreter: their bodies (by name), the default
/// task, and the tasks that have already run.
pub struct Tasks {
    pub bodies: Vec<(String, Vec<Value>)>,
    pub default_task: Option<String>,
    pub ran: Vec<String>,
}

/// `Tasks` with texts and values taken by their views.
pub struct TasksView {
    pub bodies: Seq<(Seq<char>, Seq<ValueView>)>,
    pub default_task: Option<Seq<char>>,
    pub ran: Seq<Seq<char>>,
}

pub open spec fn view_bodies(b: Seq<(String, Vec<Value>)>) -> Seq<(Seq<char>, Seq<ValueView>)> {
    Seq::new(b.len(), |i: int| (b[i].0@, view_items(b[i].1@)))
}

pub open spec fn view_names(ns: Seq<String>) -> Seq<Seq<char>> {
    Seq::new(ns.len(), |i: int| ns[i]@)
}

pub open spec fn view_opt(o: Option<String>) -> Option<Seq<char>> {
    match o {
        Some(s) => Some(s@),
        None => None,
    }
}

impl View for Tasks {
    type V = TasksView;

    open spec fn view(&self) -> TasksView {
        TasksView {
            bodies: view_bodies(self.bodies@),
            default_task: view_opt(self.default_task),
            ran: view_names(self.ran@),
        }
    }
}

/// The names of the registered tasks.
pub open spec fn task_names(t: TasksView) -> Seq<Seq<char>> {
    Seq::new(t.bodies.len(), |i: int| t.bodies[i].0)
}

/// The first position at or after `i` where `ks` holds `n`, or -1.
pub open spec fn find_name(ks: Seq<Seq<char>>, n: Seq<char>, i: int) -> int
    decreases ks.len() - i,
{
    if i < 0 || i >= ks.len() {
        -1
    } else if ks[i] == n {
        i
    } else {
        find_name(ks, n, i + 1)
    }
}

pub proof fn lemma_find_name(ks: Seq<Seq<char>>, n: Seq<char>, i: int)
    requires
        0 <= i,
    ensures
        find_name(ks, n, i) == -1 || (i <= find_name(ks, n, i) < ks.len() && ks[find_name(ks, n, i)] == n),
        find_name(ks, n, i) == -1 <==> forall|j: int| i <= j < ks.len() ==> ks[j] != n,
        find_name(ks, n, i) >= 0 ==> forall|j: int| i <= j < find_name(ks, n, i) ==> ks[j] != n,
    decreases ks.len() - i,
{
    if i < ks.len() && ks[i] != n {
        lemma_find_name(ks, n, i + 1);
    }
}

/// Every name occurs once.
pub open spec fn distinct(ks: Seq<Seq<char>>) -> bool {
    forall|i: int, j: int| 0 <= i < j < ks.len() ==> ks[i] != ks[j]
}

/// The registry holds each task once and records each run once.
pub open spec fn tasks_wf(t: TasksView) -> bool {
    distinct(task_names(t)) && distinct(t.ran)
}

/// The task `n` is registered.
pub open spec fn registered(t: TasksView, n: Seq<char>) -> bool {
    find_name(task_names(t), n, 0) >= 0
}

/// The body of the registered task `n`.
pub open spec fn body_of(t: TasksView, n: Seq<char>) -> Seq<ValueView> {
    t.bodies[find_name(task_names(t), n, 0)].1
}

/// The task `n` has run.
pub open spec fn has_run(t: TasksView, n: Seq<char>) -> bool {
    t.ran.contains(n)
}

/// The registry with `n` set to `body` (in place when `n` is registered,
/// else appended).
pub open spec fn register_spec(t: TasksView, n: Seq<char>, body: Seq<ValueView>) -> TasksView {
    let i = find_name(task_names(t), n, 0);
    TasksView {
        bodies: if i >= 0 {
            t.bodies.update(i, (n, body))
        } else {
            t.bodies.push((n, body))
        },
        ..t
    }
}

/// The registry with `n` recorded as run.
pub open spec fn mark_ran_spec(t: TasksView, n: Seq<char>) -> TasksView {
    if t.ran.contains(n) {
        t
    } else {
        TasksView { ran: t.ran.push(n), ..t }
    }
}

impl Tasks {
    /// An empty registry.
    pub fn new() -> (r: Tasks)
        ensures
            r@.bodies.len() == 0,
            r@.default_task is None,
            r@.ran.len() == 0,
            tasks_wf(r@),
    {
        Tasks { bodies: Vec::new(), default_task: None, ran: Vec::new() }
    }

    /// The position of the task `n` in the registry, if it is registered.
    pub fn find(&self, n: &String) -> (r: Option<usize>)
        ensures
            match r {
                Some(i) => i as int == find_name(task_names(self@), n@, 0),
                None => find_name(task_names(self@), n@, 0) == -1,
            },
    {
        let ghost ks = task_names(self@);
        let mut i: usize = 0;
        while i < self.bodies.len()
            invariant
                i <= self.bodies@.len(),
                ks == task_names(self@),
                ks.len() == self.bodies@.len(),
                find_name(ks, n@, 0) == find_name(ks, n@, i as int),
            decreases self.bodies@.len() - i,
        {
            assert(ks[i as int] == self.bodies@[i as int].0@);
            if self.bodies[i].0 == *n {
                return Some(i);
            }
            i = i + 1;
        }
        None
    }

    /// Whether the task `n` has run.
    pub fn has_run(&self, n: &String) -> (r: bool)
        ensures
            r == has_run(self@, n@),
    {
        let ghost rs = self@.ran;
        let mut i: usize = 0;
        while i < self.ran.len()
            invariant
                i <= self.ran@.len(),
                rs == self@.ran,
                rs.len() == self.ran@.len(),
                forall|j: int| 0 <= j < i ==> rs[j] != n@,
            decreases self.ran@.len() - i,
        {
            assert(rs[i as int] == self.ran@[i as int]@);
            if self.ran[i] == *n {
                assert(rs[i as int] == n@);
                return true;
            }
            i = i + 1;
        }
        false
    }

    /// Registers (or replaces) the task `n`.
    pub fn register(&mut self, n: String, body: Vec<Value>)
        requires
            tasks_wf(old(self)@),
        ensures
            final(self)@ == register_spec(old(self)@, n@, view_items(body@)),
            tasks_wf(final(self)@),
    {
        let ghost nv = n@;
        let ghost bv = view_items(body@);
        let ghost t0 = self@;
        proof {
            lemma_find_name(task_names(t0), nv, 0);
        }
        match self.find(&n) {
            Some(i) => {
                self.bodies.set(i, (n, body));
                assert(self@.bodies =~= t0.bodies.update(i as int, (nv, bv)));
                assert(task_names(self@) =~= task_names(t0).update(i as int, nv));
            },
            None => {
                self.bodies.push((n, body));
                assert(self@.bodies =~= t0.bodies.push((nv, bv)));
                assert(task_names(self@) =~= task_names(t0).push(nv));
            },
        }
        assert(self@.ran =~= t0.ran);
    }

    /// Records that the task `n` has run.
    pub fn mark_ran(&mut self, n: String)
        requires
            tasks_wf(old(self)@),
        ensures
            final(self)@ == mark_ran_spec(old(self)@, n@),
            tasks_wf(final(self)@),
    {
        let ghost t0 = self@;
        if !self.has_run(&n) {
            let ghost nv = n@;
            self.ran.push(n);
            assert(self@.ran =~= t0.ran.push(nv));
            assert(self@.bodies =~= t0.bodies);
        }
    }
}

// ---------------------------------------------------------------------------
// Errors
// ---------------------------------------------------------------------------

/// Why a `build`, `task` or `run-task` call fails.
#[derive(Debug, PartialEq)]
pub enum BuildError {
    /// The native was called with `got` arguments, fewer than `expected`.
    Arity { expected: usize, got: usize },
    /// `build` of something other than a block or paren.
    NotBlock(Kind),
    /// A `build` block element where a keyword belongs.
    ExpectedKeyword(Kind),
    /// `task` inside `build` without a name and a body.
    TaskArgs,
    /// A task body (inside `build`) that is no block.
    TaskBody(Kind),
    /// A task body (given to `task`) that is no block.
    StandaloneBody(Kind),
    /// `default` inside `build` without a task name.
    DefaultArgs,
    /// `run` inside `build` without a task name.
    RunArgs,
    /// A `build` keyword other than `task`, `default` and `run`.
    UnknownKeyword(String),
    /// A task name that is neither a word nor a string.
    TaskName(Kind),
    /// A task that depends on itself: the tasks being run, then the name.
    Cycle { chain: Vec<String>, name: String },
    /// A task that is not registered.
    Undefined(String),
}

/// `BuildError` with texts taken by their views.
pub enum BuildFault {
    Arity { expected: usize, got: usize },
    NotBlock(Kind),
    ExpectedKeyword(Kind),
    TaskArgs,
    TaskBody(Kind),
    StandaloneBody(Kind),
    DefaultArgs,
    RunArgs,
    UnknownKeyword(Seq<char>),
    TaskName(Kind),
    Cycle { chain: Seq<Seq<char>>, name: Seq<char> },
    Undefined(Seq<char>),
}

impl View for BuildError {
    type V = BuildFault;

    open spec fn view(&self) -> BuildFault {
        match self {
            BuildError::Arity { expected, got } => BuildFault::Arity { expected: *expected, got: *got },
            BuildError::NotBlock(k) => BuildFault::NotBlock(*k),
            BuildError::ExpectedKeyword(k) => BuildFault::ExpectedKeyword(*k),
            BuildError::TaskArgs => BuildFault::TaskArgs,
            BuildError::TaskBody(k) => BuildFault::TaskBody(*k),
            BuildError::StandaloneBody(k) => BuildFault::StandaloneBody(*k),
            BuildError::DefaultArgs => BuildFault::DefaultArgs,
            BuildError::RunArgs => BuildFault::RunArgs,
            BuildError::UnknownKeyword(s) => BuildFault::UnknownKeyword(s@),
            BuildError::TaskName(k) => BuildFault::TaskName(*k),
            BuildError::Cycle { chain, name } => BuildFault::Cycle { chain: view_names(chain@), name: name@ },
            BuildError::Undefined(s) => BuildFault::Undefined(s@),
        }
    }
}

/// The names of `chain`, separated by " -> ".
pub open spec fn joined_names(chain: Seq<Seq<char>>) -> Seq<char>
    decreases chain.len(),
{
    if chain.len() == 0 {
        Seq::empty()
    } else if chain.len() == 1 {
        chain[0]
    } else {
        joined_names(chain.drop_last()) + " -> "@ + chain.last()
    }
}

/// The message of a build dialect's error.
pub open spec fn build_error_message(e: BuildFault) -> Seq<char> {
    match e {
        BuildFault::Arity { .. } => "wrong number of arguments"@,
        BuildFault::NotBlock(k) => "expected block!, found "@ + kind_name(k),
        BuildFault::ExpectedKeyword(k) => "build: expected keyword, got "@ + kind_name(k),
        BuildFault::TaskArgs => "build: `task` expects a name and a body block"@,
        BuildFault::TaskBody(k) => "build: `task` body must be a block!, got "@ + kind_name(k),
        BuildFault::StandaloneBody(k) => "task: body must be a block!, got "@ + kind_name(k),
        BuildFault::DefaultArgs => "build: `default` expects a task name"@,
        BuildFault::RunArgs => "build: `run` expects a task name"@,
        BuildFault::UnknownKeyword(w) => "build: unknown keyword `"@ + w + "`"@,
        BuildFault::TaskName(k) => "build: task name must be a word or string, got "@ + kind_name(k),
        BuildFault::Cycle { chain, name } => "build: circular task dependency detected: "@ + joined_names(chain)
            + " -> "@ + name,
        BuildFault::Undefined(n) => "build: task `"@ + n + "` is not defined"@,
    }
}

impl BuildError {
    /// The error's message.
    pub fn message(&self) -> (r: String)
        ensures
            r@ == build_error_message(self@),
    {
        let mut out = String::new();
        match self {
            BuildError::Arity { .. } => {
                out.append("wrong number of arguments");
            },
            BuildError::NotBlock(k) => {
                out.append("expected block!, found ");
                out.append(k.name());
            },
            BuildError::ExpectedKeyword(k) => {
                out.append("build: expected keyword, got ");
                out.append(k.name());
            },
            BuildError::TaskArgs => {
                out.append("build: `task` expects a name and a body block");
            },
            BuildError::TaskBody(k) => {
                out.append("build: `task` body must be a block!, got ");
                out.append(k.name());
            },
            BuildError::StandaloneBody(k) => {
                out.append("task: body must be a block!, got ");
                out.append(k.name());
            },
            BuildError::DefaultArgs => {
                out.append("build: `default` expects a task name");
            },
            BuildError::RunArgs => {
                out.append("build: `run` expects a task name");
            },
            BuildError::UnknownKeyword(w) => {
                out.append("build: unknown keyword `");
                out.append(w.as_str());
                out.append("`");
            },
            BuildError::TaskName(k) => {
                out.append("build: task name must be a word or string, got ");
                out.append(k.name());
            },
            BuildError::Cycle { chain, name } => {
                out.append("build: circular task dependency detected: ");
                let ghost start = out@;
                let ghost names = view_names(chain@);
                let mut i: usize = 0;
                while i < chain.len()
                    invariant
                        i <= chain@.len(),
                        names == view_names(chain@),
                        out@ == start + joined_names(names.take(i as int)),
                    decreases chain.len() - i,
                {
                    proof {
                        assert(names.take(i + 1).drop_last() =~= names.take(i as int));
                        assert(names.take(i + 1).last() == chain@[i as int]@);
                    }
                    if i > 0 {
                        out.append(" -> ");
                    }
                    out.append(chain[i].as_str());
                    i = i + 1;
                }
                proof {
                    assert(names.take(i as int) =~= names);
                }
                out.append(" -> ");
                out.append(name.as_str());
            },
            BuildError::Undefined(n) => {
                out.append("build: task `");
                out.append(n.as_str());
                out.append("` is not defined");
            },
        }
        out
    }
}

// ---------------------------------------------------------------------------
// Names
// ---------------------------------------------------------------------------

/// The name of a word (`word!`, `set-word!`, `get-word!` or `lit-word!`):
/// the words that name keywords and dependencies.
pub open spec fn word_of_value(v: ValueView) -> Option<Seq<char>> {
    match v {
        ValueView::Word(s) => Some(s),
        ValueView::SetWord(s) => Some(s),
        ValueView::GetWord(s) => Some(s),
        ValueView::LitWord(s) => Some(s),
        _ => None,
    }
}

fn word_text(v: &Value) -> (r: Option<String>)
    ensures
        r is Some == word_of_value(v@) is Some,
        r matches Some(s) ==> s@ == word_of_value(v@)->Some_0,
{
    match v {
        Value::Word(s) => Some(s.clone()),
        Value::SetWord(s) => Some(s.clone()),
        Value::GetWord(s) => Some(s.clone()),
        Value::LitWord(s) => Some(s.clone()),
        _ => None,
    }
}

/// A task name: a word's name or a string.
pub open spec fn task_name_spec(v: ValueView) -> Result<Seq<char>, BuildFault> {
    match v {
        ValueView::Str(s) => Ok(s),
        _ => match word_of_value(v) {
            Some(n) => Ok(n),
            None => Err(BuildFault::TaskName(kind_of(v))),
        },
    }
}

/// A task name: a word's name or a string.
pub fn parse_task_name(v: &Value) -> (r: Result<String, BuildError>)
    ensures
        match r {
            Ok(n) => task_name_spec(v@) == Ok::<Seq<char>, BuildFault>(n@),
            Err(e) => task_name_spec(v@) == Err::<Seq<char>, BuildFault>(e@),
        },
{
    match v {
        Value::Str(s) => Ok(s.clone()),
        _ => match word_text(v) {
            Some(n) => Ok(n),
            None => Err(BuildError::TaskName(kind(v))),
        },
    }
}

/// The elements of a block or paren.
pub open spec fn block_items(v: ValueView) -> Option<Seq<ValueView>> {
    match v {
        ValueView::Block(items) => Some(items),
        ValueView::Paren(items) => Some(items),
        _ => None,
    }
}

fn copy_items(v: &Value) -> (r: Option<Vec<Value>>)
    ensures
        r is Some == block_items(v@) is Some,
        r matches Some(items) ==> view_items(items@) == block_items(v@)->Some_0,
{
    match v {
        Value::Block(items) => Some(crate::value::clone_items(items)),
        Value::Paren(items) => Some(crate::value::clone_items(items)),
        _ => None,
    }
}

/// What `task name body` does to the registry.
pub open spec fn task_spec(args: Seq<Value>, t: TasksView) -> Result<TasksView, BuildFault> {
    if args.len() < 2 {
        Err(BuildFault::Arity { expected: 2, got: args.len() as usize })
    } else {
        match task_name_spec(args[0]@) {
            Err(e) => Err(e),
            Ok(n) => match block_items(args[1]@) {
                None => Err(BuildFault::StandaloneBody(kind_of(args[1]@))),
                Some(body) => Ok(register_spec(t, n, body)),
            },
        }
    }
}

/// `task name body`: registers (or replaces) a task outside `build`.
pub fn task_native(args: &[Value], tasks: &mut Tasks) -> (r: Result<(), BuildError>)
    requires
        tasks_wf(old(tasks)@),
    ensures
        tasks_wf(final(tasks)@),
        match task_spec(args@, old(tasks)@) {
            Ok(t2) => r is Ok && final(tasks)@ == t2,
            Err(e) => r matches Err(x) && x@ == e && final(tasks)@ == old(tasks)@,
        },
{
    if args.len() < 2 {
        return Err(BuildError::Arity { expected: 2, got: args.len() });
    }
    let name = match parse_task_name(&args[0]) {
        Ok(n) => n,
        Err(e) => {
            return Err(e);
        },
    };
    let body = match copy_items(&args[1]) {
        Some(b) => b,
        None => {
            return Err(BuildError::StandaloneBody(kind(&args[1])));
        },
    };
    tasks.register(name, body);
    Ok(())
}

// ---------------------------------------------------------------------------
// Running a task
// ---------------------------------------------------------------------------

/// A task being run: its body, how far it has been walked, and the
/// elements that are not dependencies (evaluated once the walk is done).
pub struct Frame {
    pub name: String,
    pub elems: Vec<Value>,
    pub pos: usize,
    pub residual: Vec<Value>,
}

pub struct FrameView {
    pub name: Seq<char>,
    pub elems: Seq<ValueView>,
    pub pos: nat,
    pub residual: Seq<ValueView>,
}

impl View for Frame {
    type V = FrameView;

    open spec fn view(&self) -> FrameView {
        FrameView {
            name: self.name@,
            elems: view_items(self.elems@),
            pos: self.pos as nat,
            residual: view_items(self.residual@),
        }
    }
}

/// A run of a task: the tasks being run, innermost last.
pub struct Runner {
    pub frames: Vec<Frame>,
}

pub open spec fn view_frames(fs: Seq<Frame>) -> Seq<FrameView> {
    Seq::new(fs.len(), |i: int| fs[i]@)
}

impl View for Runner {
    type V = Seq<FrameView>;

    open spec fn view(&self) -> Seq<FrameView> {
        view_frames(self.frames@)
    }
}

/// What a step of a run asks of its caller.
pub enum Step {
    /// Nothing: take the next step.
    Continue,
    /// Evaluate this block (the rest of a finished task's body); `root`
    /// tells that it belongs to the task the run was started for, whose
    /// value the run answers.
    Evaluate { body: Vec<Value>, root: bool },
    /// The run is over.
    Finished,
    /// The run failed.
    Failed(BuildError),
}

pub enum StepView {
    Continue,
    Evaluate { body: Seq<ValueView>, root: bool },
    Finished,
    Failed(BuildFault),
}

impl View for Step {
    type V = StepView;

    open spec fn view(&self) -> StepView {
        match self {
            Step::Continue => StepView::Continue,
            Step::Evaluate { body, root } => StepView::Evaluate { body: view_items(body@), root: *root },
            Step::Finished => StepView::Finished,
            Step::Failed(e) => StepView::Failed(e@),
        }
    }
}

/// The names of the tasks being run.
pub open spec fn stack_names(fs: Seq<FrameView>) -> Seq<Seq<char>> {
    Seq::new(fs.len(), |i: int| fs[i].name)
}

/// One step of a run, and the registry after it.
pub open spec fn runner_step_spec(fs: Seq<FrameView>, t: TasksView) -> (Seq<FrameView>, TasksView, StepView) {
    if fs.len() == 0 {
        (fs, t, StepView::Finished)
    } else {
        let top = fs.last();
        let rest = fs.drop_last();
        if top.pos < top.elems.len() {
            let e = top.elems[top.pos as int];
            let top1 = FrameView { pos: top.pos + 1, ..top };
            let dep = word_of_value(e);
            if dep is Some && registered(t, dep->Some_0) {
                let n = dep->Some_0;
                if has_run(t, n) {
                    (rest.push(top1), t, StepView::Continue)
                } else if stack_names(fs).contains(n) {
                    (
                        rest.push(top1),
                        t,
                        StepView::Failed(BuildFault::Cycle { chain: stack_names(fs), name: n }),
                    )
                } else {
                    (
                        rest.push(top1).push(
                            FrameView { name: n, elems: body_of(t, n), pos: 0, residual: Seq::empty() },
                        ),
                        t,
                        StepView::Continue,
                    )
                }
            } else {
                (rest.push(FrameView { residual: top.residual.push(e), ..top1 }), t, StepView::Continue)
            }
        } else {
            let t2 = mark_ran_spec(t, top.name);
            if top.residual.len() > 0 {
                (rest, t2, StepView::Evaluate { body: top.residual, root: rest.len() == 0 })
            } else {
                (rest, t2, StepView::Continue)
            }
        }
    }
}

/// How a run of the task `n` starts: nothing to do when it has run, an
/// error when it is not registered, else its body to walk.
pub open spec fn runner_start_spec(n: Seq<char>, t: TasksView) -> Result<Seq<FrameView>, BuildFault> {
    if has_run(t, n) {
        Ok(Seq::empty())
    } else if !registered(t, n) {
        Err(BuildFault::Undefined(n))
    } else {
        Ok(seq![FrameView { name: n, elems: body_of(t, n), pos: 0, residual: Seq::empty() }])
    }
}

/// A run in a sound state: every frame's walk is within its body, no task
/// is being run twice, and none of them has run yet.
pub open spec fn runner_wf(fs: Seq<FrameView>, t: TasksView) -> bool {
    &&& forall|i: int| 0 <= i < fs.len() ==> #[trigger] fs[i].pos <= fs[i].elems.len()
    &&& distinct(stack_names(fs))
    &&& forall|i: int| 0 <= i < fs.len() ==> !has_run(t, #[trigger] fs[i].name)
}

fn body_copy(tasks: &Tasks, i: usize) -> (r: Vec<Value>)
    requires
        i < tasks.bodies@.len(),
    ensures
        view_items(r@) == tasks@.bodies[i as int].1,
{
    crate::value::clone_items(&tasks.bodies[i].1)
}

fn names_of(frames: &Vec<Frame>) -> (r: Vec<String>)
    ensures
        view_names(r@) == stack_names(view_frames(frames@)),
{
    let mut out: Vec<String> = Vec::new();
    let mut i: usize = 0;
    while i < frames.len()
        invariant
            i <= frames@.len(),
            view_names(out@) == stack_names(view_frames(frames@)).take(i as int),
        decreases frames@.len() - i,
    {
        let ghost before = out@;
        out.push(frames[i].name.clone());
        proof {
            assert(view_frames(frames@)[i as int] == frames@[i as int]@);
            assert(view_names(out@) =~= view_names(before).push(frames@[i as int].name@));
            assert(stack_names(view_frames(frames@)).take(i + 1) =~= stack_names(view_frames(frames@)).take(
                i as int,
            ).push(frames@[i as int].name@));
        }
        i = i + 1;
    }
    assert(stack_names(view_frames(frames@)).take(frames@.len() as int) =~= stack_names(view_frames(frames@)));
    out
}

fn on_stack(frames: &Vec<Frame>, n: &String) -> (r: bool)
    ensures
        r == stack_names(view_frames(frames@)).contains(n@),
{
    let ghost ns = stack_names(view_frames(frames@));
    let mut i: usize = 0;
    while i < frames.len()
        invariant
            i <= frames@.len(),
            ns == stack_names(view_frames(frames@)),
            ns.len() == frames@.len(),
            forall|j: int| 0 <= j < i ==> ns[j] != n@,
        decreases frames@.len() - i,
    {
        assert(ns[i as int] == frames@[i as int].name@);
        if frames[i].name == *n {
            assert(ns[i as int] == n@);
            return true;
        }
        i = i + 1;
    }
    false
}

impl Runner {
    /// Starts a run of the task `n`.
    pub fn start(n: String, tasks: &Tasks) -> (r: Result<Runner, BuildError>)
        ensures
            match runner_start_spec(n@, tasks@) {
                Ok(fs) => r matches Ok(x) && x@ == fs,
                Err(e) => r matches Err(x) && x@ == e,
            },
    {
        if tasks.has_run(&n) {
            let r = Runner { frames: Vec::new() };
            assert(r@ =~= Seq::<FrameView>::empty());
            return Ok(r);
        }
        proof {
            lemma_find_name(task_names(tasks@), n@, 0);
        }
        match tasks.find(&n) {
            None => Err(BuildError::Undefined(n)),
            Some(i) => {
                let elems = body_copy(tasks, i);
                let mut frames: Vec<Frame> = Vec::new();
                frames.push(Frame { name: n, elems, pos: 0, residual: Vec::new() });
                let r = Runner { frames };
                proof {
                    lemma_view_items(r.frames@[0].residual@);
                    assert(view_items(r.frames@[0].residual@) =~= Seq::<ValueView>::empty());
                }
                assert(r@ =~= runner_start_spec(n@, tasks@)->Ok_0);
                Ok(r)
            },
        }
    }

    /// One step of the run. The caller evaluates the blocks the steps hand
    /// it, in order, and steps on until the run is finished or fails.
    pub fn step(&mut self, tasks: &mut Tasks) -> (r: Step)
        requires
            tasks_wf(old(tasks)@),
        ensures
            tasks_wf(final(tasks)@),
            (final(self)@, final(tasks)@, r@) == runner_step_spec(old(self)@, old(tasks)@),
    {
        let ghost fs = self@;
        let ghost t = tasks@;
        let k = self.frames.len();
        if k == 0 {
            return Step::Finished;
        }
        let names = names_of(&self.frames);
        let mut top = self.frames.pop().unwrap();
        proof {
            assert(self@ =~= fs.drop_last());
            assert(top@ == fs.last());
        }
        if top.pos < top.elems.len() {
            proof {
                lemma_view_items(top.elems@);
            }
            let ghost e = top@.elems[top.pos as int];
            let dep = word_text(&top.elems[top.pos]);
            let found = match &dep {
                Some(n) => tasks.find(n),
                None => None,
            };
            proof {
                lemma_find_name(task_names(t), word_of_value(e)->Some_0, 0);
            }
            match (dep, found) {
                (Some(n), Some(i)) => {
                    proof {
                        lemma_find_name(task_names(t), n@, 0);
                    }
                    top.pos = top.pos + 1;
                    if tasks.has_run(&n) {
                        self.frames.push(top);
                        assert(self@ =~= fs.drop_last().push(FrameView { pos: fs.last().pos + 1, ..fs.last() }));
                                                return Step::Continue;
                    }
                    self.frames.push(top);
                    assert(self@ =~= fs.drop_last().push(FrameView { pos: fs.last().pos + 1, ..fs.last() }));
                    assert(stack_names(self@) =~= stack_names(fs));
                    let cycle = on_stack(&self.frames, &n);
                    if cycle {
                                                return Step::Failed(BuildError::Cycle { chain: names, name: n });
                    }
                    let elems = body_copy(tasks, i);
                    let ghost before = self@;
                    self.frames.push(Frame { name: n, elems, pos: 0, residual: Vec::new() });
                    proof {
                        let nf = self.frames@[self.frames@.len() - 1];
                        lemma_view_items(nf.residual@);
                        assert(view_items(nf.residual@) =~= Seq::<ValueView>::empty());
                        assert(self@ =~= before.push(
                            FrameView { name: n@, elems: body_of(t, n@), pos: 0, residual: Seq::empty() },
                        ));
                    }
                                        Step::Continue
                },
                (d, _) => {
                    let c = clone_value(&top.elems[top.pos]);
                    let ghost r0 = top.residual@;
                    top.residual.push(c);
                    proof {
                        assert(top.residual@.drop_last() =~= r0);
                    }
                    top.pos = top.pos + 1;
                    self.frames.push(top);
                    assert(self@ =~= fs.drop_last().push(
                        FrameView { residual: fs.last().residual.push(e), pos: fs.last().pos + 1, ..fs.last() },
                    ));
                                        Step::Continue
                },
            }
        } else {
            proof {
                lemma_view_items(top.elems@);
            }
            let name = top.name;
            tasks.mark_ran(name);
            if top.residual.len() > 0 {
                let root = self.frames.len() == 0;
                                Step::Evaluate { body: top.residual, root }
            } else {
                proof {
                    lemma_view_items(top.residual@);
                }
                                Step::Continue
            }
        }
    }
}

/// `run-task name`: a run of the task `name`.
pub open spec fn run_task_spec(args: Seq<Value>, t: TasksView) -> Result<Seq<FrameView>, BuildFault> {
    if args.len() == 0 {
        Err(BuildFault::Arity { expected: 1, got: 0 })
    } else {
        match task_name_spec(args[0]@) {
            Err(e) => Err(e),
            Ok(n) => runner_start_spec(n, t),
        }
    }
}

/// `run-task name`: starts a run of a registered task (the caller steps it
/// to the end, evaluating what it hands over; the run answers the value of
/// the named task's own body, or `none`).
pub fn run_task_native(args: &[Value], tasks: &Tasks) -> (r: Result<Runner, BuildError>)
    ensures
        match run_task_spec(args@, tasks@) {
            Ok(fs) => r matches Ok(x) && x@ == fs,
            Err(e) => r matches Err(x) && x@ == e,
        },
{
    if args.len() == 0 {
        return Err(BuildError::Arity { expected: 1, got: 0 });
    }
    match parse_task_name(&args[0]) {
        Ok(n) => Runner::start(n, tasks),
        Err(e) => Err(e),
    }
}

// ---------------------------------------------------------------------------
// The build dialect
// ---------------------------------------------------------------------------

/// A `build` block being walked, with the run a `run` keyword started.
pub struct BuildRun {
    pub elems: Vec<Value>,
    pub pos: usize,
    pub runner: Option<Runner>,
}

pub struct BuildView {
    pub elems: Seq<ValueView>,
    pub pos: nat,
    pub runner: Option<Seq<FrameView>>,
}

impl View for BuildRun {
    type V = BuildView;

    open spec fn view(&self) -> BuildView {
        BuildView {
            elems: view_items(self.elems@),
            pos: self.pos as nat,
            runner: match self.runner {
                Some(r) => Some(r@),
                None => None,
            },
        }
    }
}

/// How `build block` starts.
pub open spec fn build_start_spec(args: Seq<Value>) -> Result<BuildView, BuildFault> {
    if args.len() == 0 {
        Err(BuildFault::Arity { expected: 1, got: 0 })
    } else {
        match block_items(args[0]@) {
            None => Err(BuildFault::NotBlock(kind_of(args[0]@))),
            Some(items) => Ok(BuildView { elems: items, pos: 0, runner: None }),
        }
    }
}

/// One step of a `build` walk, and the registry after it.
pub open spec fn build_step_spec(b: BuildView, t: TasksView) -> (BuildView, TasksView, StepView) {
    match b.runner {
        Some(fs) => {
            let (fs2, t2, s) = runner_step_spec(fs, t);
            if s is Finished {
                (BuildView { runner: None, ..b }, t2, StepView::Continue)
            } else {
                (BuildView { runner: Some(fs2), ..b }, t2, s)
            }
        },
        None => if b.pos >= b.elems.len() {
            (b, t, StepView::Finished)
        } else {
            let e = b.elems[b.pos as int];
            let i = b.pos + 1;
            match word_of_value(e) {
                None => (b, t, StepView::Failed(BuildFault::ExpectedKeyword(kind_of(e)))),
                Some(k) => if k == "task"@ {
                    if i + 1 >= b.elems.len() {
                        (b, t, StepView::Failed(BuildFault::TaskArgs))
                    } else {
                        match task_name_spec(b.elems[i as int]) {
                            Err(x) => (b, t, StepView::Failed(x)),
                            Ok(n) => match block_items(b.elems[i + 1 as int]) {
                                None => (
                                    b,
                                    t,
                                    StepView::Failed(BuildFault::TaskBody(kind_of(b.elems[i + 1 as int]))),
                                ),
                                Some(body) => (
                                    BuildView { pos: i + 2, ..b },
                                    register_spec(t, n, body),
                                    StepView::Continue,
                                ),
                            },
                        }
                    }
                } else if k == "default"@ {
                    if i >= b.elems.len() {
                        (b, t, StepView::Failed(BuildFault::DefaultArgs))
                    } else {
                        match task_name_spec(b.elems[i as int]) {
                            Err(x) => (b, t, StepView::Failed(x)),
                            Ok(n) => (
                                BuildView { pos: i + 1, ..b },
                                TasksView { default_task: Some(n), ..t },
                                StepView::Continue,
                            ),
                        }
                    }
                } else if k == "run"@ {
                    if i >= b.elems.len() {
                        (b, t, StepView::Failed(BuildFault::RunArgs))
                    } else {
                        match task_name_spec(b.elems[i as int]) {
                            Err(x) => (b, t, StepView::Failed(x)),
                            Ok(n) => match runner_start_spec(n, t) {
                                Err(x) => (b, t, StepView::Failed(x)),
                                Ok(fs) => (BuildView { pos: i + 1, runner: Some(fs), ..b }, t, StepView::Continue),
                            },
                        }
                    }
                } else {
                    (b, t, StepView::Failed(BuildFault::UnknownKeyword(k)))
                },
            }
        },
    }
}

fn is_keyword(k: &String, lit: &str) -> (r: bool)
    ensures
        r == (k@ == lit@),
{
    let w = String::from_str(lit);
    *k == w
}

impl BuildRun {
    /// `build block`: starts walking the block.
    pub fn start(args: &[Value]) -> (r: Result<BuildRun, BuildError>)
        ensures
            match build_start_spec(args@) {
                Ok(b) => r matches Ok(x) && x@ == b,
                Err(e) => r matches Err(x) && x@ == e,
            },
    {
        if args.len() == 0 {
            return Err(BuildError::Arity { expected: 1, got: 0 });
        }
        match copy_items(&args[0]) {
            Some(elems) => Ok(BuildRun { elems, pos: 0, runner: None }),
            None => Err(BuildError::NotBlock(kind(&args[0]))),
        }
    }

    /// One step of the walk: `task` registers a task, `default` names the
    /// default task, `run` starts a run, whose steps follow. The caller
    /// evaluates the blocks the steps hand it and steps on until the walk
    /// is finished (`build` then answers `none`) or fails.
    pub fn step(&mut self, tasks: &mut Tasks) -> (r: Step)
        requires
            tasks_wf(old(tasks)@),
        ensures
            tasks_wf(final(tasks)@),
            (final(self)@, final(tasks)@, r@) == build_step_spec(old(self)@, old(tasks)@),
    {
        let ghost b0 = self@;
        let ghost t0 = tasks@;
        proof {
            lemma_view_items(self.elems@);
        }
        if let Some(mut runner) = self.runner.take() {
            let s = runner.step(tasks);
            match s {
                Step::Finished => {
                    return Step::Continue;
                },
                _ => {
                    self.runner = Some(runner);
                    return s;
                },
            }
        }
        if self.pos >= self.elems.len() {
            return Step::Finished;
        }
        let i = self.pos + 1;
        let k = match word_text(&self.elems[self.pos]) {
            Some(k) => k,
            None => {
                return Step::Failed(BuildError::ExpectedKeyword(kind(&self.elems[self.pos])));
            },
        };
        if is_keyword(&k, "task") {
            if self.elems.len() - i <= 1 {
                return Step::Failed(BuildError::TaskArgs);
            }
            let n = match parse_task_name(&self.elems[i]) {
                Ok(n) => n,
                Err(x) => {
                    return Step::Failed(x);
                },
            };
            let body = match copy_items(&self.elems[i + 1]) {
                Some(b) => b,
                None => {
                    return Step::Failed(BuildError::TaskBody(kind(&self.elems[i + 1])));
                },
            };
            tasks.register(n, body);
            self.pos = i + 2;
            Step::Continue
        } else if is_keyword(&k, "default") {
            if i >= self.elems.len() {
                return Step::Failed(BuildError::DefaultArgs);
            }
            let n = match parse_task_name(&self.elems[i]) {
                Ok(n) => n,
                Err(x) => {
                    return Step::Failed(x);
                },
            };
            tasks.default_task = Some(n);
            self.pos = i + 1;
            Step::Continue
        } else if is_keyword(&k, "run") {
            if i >= self.elems.len() {
                return Step::Failed(BuildError::RunArgs);
            }
            let n = match parse_task_name(&self.elems[i]) {
                Ok(n) => n,
                Err(x) => {
                    return Step::Failed(x);
                },
            };
            match Runner::start(n, tasks) {
                Ok(r) => {
                    self.runner = Some(r);
                    self.pos = i + 1;
                    Step::Continue
                },
                Err(x) => Step::Failed(x),
            }
        } else {
            Step::Failed(BuildError::UnknownKeyword(k))
        }
    }
}

// ---------------------------------------------------------------------------
// What every step keeps
// ---------------------------------------------------------------------------

/// A run starts in a sound state, with no dependency passed yet.
pub proof fn law_run_starts_sound(n: Seq<char>, t: TasksView)
    requires
        tasks_wf(t),
    ensures
        runner_start_spec(n, t) matches Ok(fs) ==> runner_wf(fs, t) && deps_done(fs, t),
{
    if runner_start_spec(n, t) is Ok {
        let fs = runner_start_spec(n, t)->Ok_0;
        if fs.len() == 1 {
            assert(stack_names(fs) =~= seq![n]);
        }
    }
}

/// Every step of a run keeps it sound, and records at most one task as
/// run: the task whose walk it finishes, which had not run before. So no
/// task is entered while it is being run (a dependency on a task being run
/// fails as a cycle), and each task's body is evaluated at most once.
pub proof fn law_run_step_sound(fs: Seq<FrameView>, t: TasksView)
    requires
        tasks_wf(t),
        runner_wf(fs, t),
    ensures
        ({
            let (fs2, t2, s) = runner_step_spec(fs, t);
            &&& tasks_wf(t2)
            &&& runner_wf(fs2, t2)
            &&& t2.bodies == t.bodies
            &&& (t2.ran == t.ran || (fs.len() > 0 && !t.ran.contains(fs.last().name) && t2.ran == t.ran.push(
                fs.last().name,
            )))
            &&& (s is Evaluate ==> fs.len() > 0 && t2.ran == t.ran.push(fs.last().name))
        }),
{
    if fs.len() > 0 {
        let top = fs.last();
        let rest = fs.drop_last();
        assert(has_run(t, top.name) == false) by {
            assert(fs[fs.len() - 1] == top);
        }
        if top.pos < top.elems.len() {
            let e = top.elems[top.pos as int];
            let top1 = FrameView { pos: top.pos + 1, ..top };
            let dep = word_of_value(e);
            assert(stack_names(rest.push(top1)) =~= stack_names(fs));
            if dep is Some && registered(t, dep->Some_0) {
                let n = dep->Some_0;
                if !has_run(t, n) && !stack_names(fs).contains(n) {
                    let nf = FrameView { name: n, elems: body_of(t, n), pos: 0, residual: Seq::empty() };
                    let fs2 = rest.push(top1).push(nf);
                    assert(stack_names(fs2) =~= stack_names(fs).push(n));
                    assert forall|i: int, j: int| 0 <= i < j < stack_names(fs2).len() implies stack_names(
                        fs2,
                    )[i] != stack_names(fs2)[j] by {
                        if j == fs2.len() - 1 {
                            assert(stack_names(fs)[i] == stack_names(fs2)[i]);
                        }
                    }
                    assert forall|i: int| 0 <= i < fs2.len() implies !has_run(t, #[trigger] fs2[i].name) by {
                        if i < fs.len() {
                            assert(fs2[i].name == fs[i].name);
                        }
                    }
                    assert forall|i: int| 0 <= i < fs2.len() implies #[trigger] fs2[i].pos <= fs2[i].elems.len() by {
                        if i < fs.len() - 1 {
                            assert(fs2[i] == fs[i]);
                        }
                    }
                } else {
                    let fs2 = rest.push(top1);
                    assert forall|i: int| 0 <= i < fs2.len() implies !has_run(t, #[trigger] fs2[i].name) by {
                        assert(fs2[i].name == fs[i].name);
                    }
                    assert forall|i: int| 0 <= i < fs2.len() implies #[trigger] fs2[i].pos <= fs2[i].elems.len() by {
                        if i < fs.len() - 1 {
                            assert(fs2[i] == fs[i]);
                        }
                    }
                }
            } else {
                let top2 = FrameView { residual: top.residual.push(e), ..top1 };
                let fs2 = rest.push(top2);
                assert(stack_names(fs2) =~= stack_names(fs));
                assert forall|i: int| 0 <= i < fs2.len() implies !has_run(t, #[trigger] fs2[i].name) by {
                    assert(fs2[i].name == fs[i].name);
                }
                assert forall|i: int| 0 <= i < fs2.len() implies #[trigger] fs2[i].pos <= fs2[i].elems.len() by {
                    if i < fs.len() - 1 {
                        assert(fs2[i] == fs[i]);
                    }
                }
            }
        } else {
            let t2 = mark_ran_spec(t, top.name);
            assert(t2.ran == t.ran.push(top.name));
            assert(stack_names(rest) =~= stack_names(fs).drop_last());
            assert forall|i: int, j: int| 0 <= i < j < t2.ran.len() implies t2.ran[i] != t2.ran[j] by {
                if j == t2.ran.len() - 1 {
                    assert(t2.ran[j] == top.name);
                    assert(t.ran[i] == t2.ran[i]);
                }
            }
            assert forall|i: int| 0 <= i < rest.len() implies !has_run(t2, #[trigger] rest[i].name) by {
                assert(rest[i] == fs[i]);
                assert(stack_names(fs)[i] != stack_names(fs)[fs.len() - 1]);
                if t2.ran.contains(rest[i].name) {
                    let k = choose|k: int| 0 <= k < t2.ran.len() && t2.ran[k] == rest[i].name;
                    if k < t.ran.len() {
                        assert(t.ran[k] == t2.ran[k]);
                    }
                }
            }
            assert forall|i: int| 0 <= i < rest.len() implies #[trigger] rest[i].pos <= rest[i].elems.len() by {
                assert(rest[i] == fs[i]);
            }
        }
    }
}

/// Every dependency a task's walk has passed has run, or is being run by a
/// frame above it.
pub open spec fn deps_done(fs: Seq<FrameView>, t: TasksView) -> bool {
    forall|i: int, j: int|
        #![trigger fs[i].elems[j]]
        0 <= i < fs.len() && 0 <= j < fs[i].pos && word_of_value(fs[i].elems[j]) is Some && registered(
            t,
            word_of_value(fs[i].elems[j])->Some_0,
        ) ==> has_run(t, word_of_value(fs[i].elems[j])->Some_0) || exists|k: int|
            i < k < fs.len() && #[trigger] fs[k].name == word_of_value(fs[i].elems[j])->Some_0
}

/// Dependencies run first: while the registry stays as it is, every step
/// that does not fail keeps each passed dependency run or running above
/// its dependent; so when a task's walk is done, every word of its body
/// that names a registered task names one that has run.
pub proof fn law_dependencies_run_first(fs: Seq<FrameView>, t: TasksView)
    requires
        tasks_wf(t),
        runner_wf(fs, t),
        deps_done(fs, t),
    ensures
        ({
            let (fs2, t2, s) = runner_step_spec(fs, t);
            s !is Failed ==> deps_done(fs2, t2)
        }),
        fs.len() > 0 && fs.last().pos == fs.last().elems.len() ==> forall|j: int|
            0 <= j < fs.last().elems.len() && word_of_value(fs.last().elems[j]) is Some && registered(
                t,
                word_of_value(#[trigger] fs.last().elems[j])->Some_0,
            ) ==> has_run(t, word_of_value(fs.last().elems[j])->Some_0),
{
    if fs.len() == 0 {
        return;
    }
    let top = fs.last();
    let rest = fs.drop_last();
    let last = fs.len() - 1;
    assert(fs[last] == top);
    // The finishing task's own dependencies.
    assert forall|j: int|
        0 <= j < top.elems.len() && top.pos == top.elems.len() && word_of_value(top.elems[j]) is Some
            && registered(t, word_of_value(#[trigger] top.elems[j])->Some_0) implies has_run(
        t,
        word_of_value(top.elems[j])->Some_0,
    ) by {
        assert(fs[last].elems[j] == top.elems[j]);
    }
    let (fs2, t2, s) = runner_step_spec(fs, t);
    if s is Failed {
        return;
    }
    if top.pos < top.elems.len() {
        let e = top.elems[top.pos as int];
        let top1 = FrameView { pos: top.pos + 1, ..top };
        let dep = word_of_value(e);
        assert(t2 == t);
        assert forall|i: int, j: int|
            0 <= i < fs2.len() && 0 <= j < fs2[i].pos && word_of_value(fs2[i].elems[j]) is Some && registered(
                t2,
                word_of_value(fs2[i].elems[j])->Some_0,
            ) implies has_run(t2, word_of_value(fs2[i].elems[j])->Some_0) || exists|k: int|
            i < k < fs2.len() && #[trigger] fs2[k].name == word_of_value(fs2[i].elems[j])->Some_0 by {
            let n = word_of_value(fs2[i].elems[j])->Some_0;
            if i < last {
                assert(fs2[i] == fs[i]);
                assert(fs[i].elems[j] == fs2[i].elems[j]);
                if !has_run(t, n) {
                    let k = choose|k: int| i < k < fs.len() && #[trigger] fs[k].name == n;
                    assert(fs2[k].name == fs[k].name);
                }
            } else if i == last {
                assert(fs2[i].elems == top.elems);
                if j < top.pos {
                    assert(fs[last].elems[j] == top.elems[j]);
                    if !has_run(t, n) {
                        let k = choose|k: int| last < k < fs.len() && #[trigger] fs[k].name == n;
                        assert(false);
                    }
                } else {
                    assert(j == top.pos);
                    assert(dep == Some(n));
                    if !has_run(t, n) {
                        assert(fs2.len() == fs.len() + 1);
                        assert(fs2[last + 1].name == n);
                    }
                }
            } else {
                assert(fs2[i].pos == 0);
            }
        }
    } else {
        assert(fs2 == rest);
        assert forall|i: int, j: int|
            0 <= i < fs2.len() && 0 <= j < fs2[i].pos && word_of_value(fs2[i].elems[j]) is Some && registered(
                t2,
                word_of_value(fs2[i].elems[j])->Some_0,
            ) implies has_run(t2, word_of_value(fs2[i].elems[j])->Some_0) || exists|k: int|
            i < k < fs2.len() && #[trigger] fs2[k].name == word_of_value(fs2[i].elems[j])->Some_0 by {
            let n = word_of_value(fs2[i].elems[j])->Some_0;
            assert(fs2[i] == fs[i]);
            assert(fs[i].elems[j] == fs2[i].elems[j]);
            assert(t2.bodies == t.bodies);
            assert(registered(t, n));
            if !has_run(t, n) {
                let k = choose|k: int| i < k < fs.len() && #[trigger] fs[k].name == n;
                if k == last {
                    assert(t2.ran == t.ran.push(top.name));
                    assert(t2.ran[t.ran.len() as int] == n);
                } else {
                    assert(fs2[k].name == fs[k].name);
                }
            } else {
                assert(t2.ran == t.ran.push(top.name));
                let p = choose|p: int| 0 <= p < t.ran.len() && t.ran[p] == n;
                assert(t2.ran[p] == n);
            }
        }
    }
}

} // verus!
