//! The `todo` tool: a todo list in phases, changed by atomic batches of operations.
//!
//! The tool holds no state of its own. The caller hands in the current phases and gets the
//! new ones back. The operations of a batch are applied in order; if one of them fails, the
//! whole batch is dropped. After a batch at most one task is in progress, and where a task
//! is pending, one is in progress.
use vstd::prelude::*;

use crate::error::ErrorView;
use crate::error::ToolError;
use crate::json::add_maybe;
use crate::json::array_in;
use crate::json::build_object;
use crate::json::entry;
use crate::json::field;
use crate::json::items_view;
use crate::json::last_value;
use crate::json::law_object_holds;
use crate::json::law_object_of;
use crate::json::lemma_array_view;
use crate::json::maybe;
use crate::json::members_view;
use crate::json::object_of;
use crate::json::str_to_json;
use crate::json::string_in;
use crate::json::texts_json;
use crate::json::texts_to_json;
use crate::json::Json;
use crate::json::JsonView;
use crate::lists::law_picked;
use crate::text::same;

verus! {

/// Status of a task.
#[derive(Debug, Clone, Copy, PartialEq, Eq, Structural)]
pub enum TodoStatus {
    /// Not started (the default).
    Pending,
    /// Under way; at most one task is.
    InProgress,
    /// Done.
    Completed,
    /// Given up, but kept in the list.
    Abandoned,
}

/// One task.
#[derive(Debug, Clone)]
pub struct TodoItem {
    /// What is to be done.
    pub content: String,
    /// Its status.
    pub status: TodoStatus,
}

/// A phase: an ordered group of tasks.
#[derive(Debug, Clone)]
pub struct TodoPhase {
    /// Name of the phase.
    pub name: String,
    /// Its tasks, in order.
    pub tasks: Vec<TodoItem>,
}

/// A task that a batch turned from not completed to completed.
#[derive(Debug, Clone)]
pub struct TodoCompletion {
    /// Name of the phase.
    pub phase: String,
    /// What was to be done.
    pub content: String,
}

/// What the tool returns.
#[derive(Debug, Clone)]
pub struct TodoResult {
    /// The phases after the batch; those before it where the batch failed.
    pub phases: Vec<TodoPhase>,
    /// The tasks that the batch completed.
    pub completed_tasks: Vec<TodoCompletion>,
    /// What went wrong; where this is not empty, nothing was applied.
    pub errors: Vec<String>,
}

// ---------------------------------------------------------------------------
// Model
// ---------------------------------------------------------------------------

/// The model of a task.
pub struct ItemView {
    /// What is to be done.
    pub content: Seq<char>,
    /// Its status.
    pub status: TodoStatus,
}

/// The model of a phase.
pub struct PhaseView {
    /// Name of the phase.
    pub name: Seq<char>,
    /// Its tasks, in order.
    pub tasks: Seq<ItemView>,
}

/// The model of what the tool returns.
pub struct TodoResultView {
    /// The phases.
    pub phases: Seq<PhaseView>,
    /// Phase and content of each task that was completed.
    pub completed_tasks: Seq<(Seq<char>, Seq<char>)>,
    /// What went wrong.
    pub errors: Seq<Seq<char>>,
}

impl View for TodoItem {
    type V = ItemView;

    open spec fn view(&self) -> ItemView {
        ItemView { content: self.content@, status: self.status }
    }
}

/// The models of a list of tasks.
pub open spec fn tasks_view(v: Seq<TodoItem>) -> Seq<ItemView> {
    v.map_values(|t: TodoItem| t@)
}

impl View for TodoPhase {
    type V = PhaseView;

    open spec fn view(&self) -> PhaseView {
        PhaseView { name: self.name@, tasks: tasks_view(self.tasks@) }
    }
}

/// The models of a list of phases.
pub open spec fn phases_view(v: Seq<TodoPhase>) -> Seq<PhaseView> {
    v.map_values(|p: TodoPhase| p@)
}

/// Phase and content of each completion.
pub open spec fn completions_view(v: Seq<TodoCompletion>) -> Seq<(Seq<char>, Seq<char>)> {
    v.map_values(|c: TodoCompletion| (c.phase@, c.content@))
}

impl View for TodoResult {
    type V = TodoResultView;

    open spec fn view(&self) -> TodoResultView {
        TodoResultView {
            phases: phases_view(self.phases@),
            completed_tasks: completions_view(self.completed_tasks@),
            errors: crate::text::views(self.errors@),
        }
    }
}

// ---------------------------------------------------------------------------
// Reading the current phases
// ---------------------------------------------------------------------------

/// The text under key `k`, empty where there is none.
pub open spec fn text_field(j: JsonView, k: Seq<char>) -> Seq<char> {
    match string_in(field(j, k)) {
        Some(s) => s,
        None => Seq::empty(),
    }
}

/// The status that a label stands for; anything unknown is pending.
pub open spec fn status_of(label: Option<Seq<char>>) -> TodoStatus {
    if label == Some("in_progress"@) {
        TodoStatus::InProgress
    } else if label == Some("completed"@) {
        TodoStatus::Completed
    } else if label == Some("abandoned"@) {
        TodoStatus::Abandoned
    } else {
        TodoStatus::Pending
    }
}

/// The task that a JSON value describes; none where it has no content.
pub open spec fn item_of(j: JsonView) -> Option<ItemView> {
    let content = text_field(j, "content"@);
    if content.len() == 0 {
        None
    } else {
        Some(ItemView { content, status: status_of(string_in(field(j, "status"@))) })
    }
}

/// The tasks that a list of JSON values describes.
pub open spec fn tasks_of(items: Seq<JsonView>) -> Seq<ItemView> {
    items.filter_map(|j: JsonView| item_of(j))
}

/// The phase that a JSON value describes; none where it has no name.
pub open spec fn phase_of(j: JsonView) -> Option<PhaseView> {
    let name = text_field(j, "name"@);
    if name.len() == 0 {
        None
    } else {
        Some(
            PhaseView {
                name,
                tasks: match array_in(field(j, "tasks"@)) {
                    Some(items) => tasks_of(items),
                    None => Seq::empty(),
                },
            },
        )
    }
}

/// The phases that the input hands in; none where it has no array of them.
pub open spec fn current_phases(input: JsonView) -> Seq<PhaseView> {
    match array_in(field(input, "currentPhases"@)) {
        Some(items) => items.filter_map(|j: JsonView| phase_of(j)),
        None => Seq::empty(),
    }
}

fn read_status(label: Option<&String>) -> (r: TodoStatus)
    ensures
        r == status_of(
            match label {
                Some(s) => Some(s@),
                None => None,
            },
        ),
{
    match label {
        Some(s) => {
            if same(s.as_str(), "in_progress") {
                TodoStatus::InProgress
            } else if same(s.as_str(), "completed") {
                TodoStatus::Completed
            } else if same(s.as_str(), "abandoned") {
                TodoStatus::Abandoned
            } else {
                TodoStatus::Pending
            }
        },
        None => TodoStatus::Pending,
    }
}

fn read_text(j: &Json, k: &str) -> (r: String)
    ensures
        r@ == text_field(j@, k@),
{
    match j.get_str(k) {
        Some(s) => s.clone(),
        None => {
            let r = String::new();
            assert(r@ == Seq::<char>::empty());
            r
        },
    }
}

fn read_tasks(items: &Vec<Json>) -> (r: Vec<TodoItem>)
    ensures
        tasks_view(r@) == tasks_of(items_view(items@)),
{
    let ghost all = items_view(items@);
    let ghost f = |j: JsonView| item_of(j);
    let mut r: Vec<TodoItem> = Vec::new();
    let mut i: usize = 0;
    assert(all.take(0).filter_map(f) == Seq::<ItemView>::empty()) by {
        reveal_with_fuel(Seq::filter_map, 1);
    }
    while i < items.len()
        invariant
            i <= items@.len(),
            all == items_view(items@),
            f == |j: JsonView| item_of(j),
            tasks_view(r@) == all.take(i as int).filter_map(f),
        decreases items@.len() - i,
    {
        proof {
            all.lemma_filter_map_take_succ(f, i as int);
            assert(all[i as int] == items@[i as int]@);
        }
        let ghost before = r@;
        let content = read_text(&items[i], "content");
        if content.as_str().unicode_len() > 0 {
            let status = read_status(items[i].get_str("status"));
            let item = TodoItem { content, status };
            r.push(item);
            assert(tasks_view(r@) == tasks_view(before).push(item@));
        }
        i = i + 1;
    }
    assert(all.take(all.len() as int) == all);
    r
}

/// The phases that the input hands in; fields that are absent or of another kind are
/// passed over.
pub fn parse_current_phases(input: &Json) -> (r: Vec<TodoPhase>)
    ensures
        phases_view(r@) == current_phases(input@),
{
    let mut r: Vec<TodoPhase> = Vec::new();
    let items = match input.get_array("currentPhases") {
        Some(items) => items,
        None => {
            assert(phases_view(r@) == Seq::<PhaseView>::empty());
            return r;
        },
    };
    let ghost all = items_view(items@);
    let ghost f = |j: JsonView| phase_of(j);
    let mut i: usize = 0;
    assert(all.take(0).filter_map(f) == Seq::<PhaseView>::empty()) by {
        reveal_with_fuel(Seq::filter_map, 1);
    }
    while i < items.len()
        invariant
            i <= items@.len(),
            all == items_view(items@),
            f == |j: JsonView| phase_of(j),
            phases_view(r@) == all.take(i as int).filter_map(f),
        decreases items@.len() - i,
    {
        proof {
            all.lemma_filter_map_take_succ(f, i as int);
            assert(all[i as int] == items@[i as int]@);
        }
        let ghost before = r@;
        let name = read_text(&items[i], "name");
        if name.as_str().unicode_len() > 0 {
            let tasks = match items[i].get_array("tasks") {
                Some(tasks) => read_tasks(tasks),
                None => Vec::new(),
            };
            assert(tasks_view(tasks@) =~= phase_of(all[i as int])->0.tasks);
            let phase = TodoPhase { name, tasks };
            r.push(phase);
            assert(phases_view(r@) == phases_view(before).push(phase@));
        }
        i = i + 1;
    }
    assert(all.take(all.len() as int) == all);
    r
}


// ---------------------------------------------------------------------------
// Finding and changing tasks
// ---------------------------------------------------------------------------

/// The position of the first task with this content.
pub open spec fn task_in(tasks: Seq<ItemView>, content: Seq<char>) -> Option<int>
    decreases tasks.len(),
{
    if tasks.len() == 0 {
        None
    } else {
        match task_in(tasks.drop_last(), content) {
            Some(i) => Some(i),
            None => if tasks.last().content == content {
                Some(tasks.len() - 1)
            } else {
                None
            },
        }
    }
}

/// Phase and position of the first task with this content.
pub open spec fn task_at(phases: Seq<PhaseView>, content: Seq<char>) -> Option<(int, int)>
    decreases phases.len(),
{
    if phases.len() == 0 {
        None
    } else {
        match task_at(phases.drop_last(), content) {
            Some(at) => Some(at),
            None => match task_in(phases.last().tasks, content) {
                Some(i) => Some((phases.len() - 1, i)),
                None => None,
            },
        }
    }
}

/// The position of the first phase with this name.
pub open spec fn phase_at(phases: Seq<PhaseView>, name: Seq<char>) -> Option<int>
    decreases phases.len(),
{
    if phases.len() == 0 {
        None
    } else {
        match phase_at(phases.drop_last(), name) {
            Some(i) => Some(i),
            None => if phases.last().name == name {
                Some(phases.len() - 1)
            } else {
                None
            },
        }
    }
}

/// A found task is where it was found, with the content looked for.
pub proof fn lemma_task_at(phases: Seq<PhaseView>, content: Seq<char>)
    ensures
        match task_at(phases, content) {
            Some((p, i)) => 0 <= p < phases.len() && 0 <= i < phases[p].tasks.len()
                && phases[p].tasks[i].content == content,
            None => true,
        },
    decreases phases.len(),
{
    if phases.len() > 0 {
        lemma_task_at(phases.drop_last(), content);
        lemma_task_in(phases.last().tasks, content);
    }
}

proof fn lemma_task_in(tasks: Seq<ItemView>, content: Seq<char>)
    ensures
        match task_in(tasks, content) {
            Some(i) => 0 <= i < tasks.len() && tasks[i].content == content,
            None => true,
        },
    decreases tasks.len(),
{
    if tasks.len() > 0 {
        lemma_task_in(tasks.drop_last(), content);
    }
}

proof fn lemma_task_in_prefix(tasks: Seq<ItemView>, content: Seq<char>, n: int)
    requires
        0 <= n <= tasks.len(),
        task_in(tasks.take(n), content) is Some,
    ensures
        task_in(tasks, content) == task_in(tasks.take(n), content),
    decreases tasks.len() - n,
{
    if n < tasks.len() {
        assert(tasks.take(n + 1).drop_last() == tasks.take(n));
        lemma_task_in_prefix(tasks, content, n + 1);
    } else {
        assert(tasks.take(n) == tasks);
    }
}

proof fn lemma_task_at_prefix(phases: Seq<PhaseView>, content: Seq<char>, n: int)
    requires
        0 <= n <= phases.len(),
        task_at(phases.take(n), content) is Some,
    ensures
        task_at(phases, content) == task_at(phases.take(n), content),
    decreases phases.len() - n,
{
    if n < phases.len() {
        assert(phases.take(n + 1).drop_last() == phases.take(n));
        lemma_task_at_prefix(phases, content, n + 1);
    } else {
        assert(phases.take(n) == phases);
    }
}

proof fn lemma_phase_at_prefix(phases: Seq<PhaseView>, name: Seq<char>, n: int)
    requires
        0 <= n <= phases.len(),
        phase_at(phases.take(n), name) is Some,
    ensures
        phase_at(phases, name) == phase_at(phases.take(n), name),
    decreases phases.len() - n,
{
    if n < phases.len() {
        assert(phases.take(n + 1).drop_last() == phases.take(n));
        lemma_phase_at_prefix(phases, name, n + 1);
    } else {
        assert(phases.take(n) == phases);
    }
}

fn find_in(tasks: &Vec<TodoItem>, content: &str) -> (r: Option<usize>)
    ensures
        match r {
            Some(i) => i < tasks@.len() && task_in(tasks_view(tasks@), content@) == Some(i as int),
            None => task_in(tasks_view(tasks@), content@) is None,
        },
{
    let ghost all = tasks_view(tasks@);
    let mut i: usize = 0;
    while i < tasks.len()
        invariant
            i <= tasks@.len(),
            all == tasks_view(tasks@),
            task_in(all.take(i as int), content@) is None,
        decreases tasks@.len() - i,
    {
        assert(all.take(i + 1).drop_last() == all.take(i as int));
        assert(all.take(i + 1).last() == tasks@[i as int]@);
        if same(tasks[i].content.as_str(), content) {
            proof {
                lemma_task_in_prefix(all, content@, i + 1);
            }
            return Some(i);
        }
        i = i + 1;
    }
    assert(all.take(all.len() as int) == all);
    None
}

/// Phase and position of the first task with this content.
pub fn find_task(phases: &Vec<TodoPhase>, content: &str) -> (r: Option<(usize, usize)>)
    ensures
        match r {
            Some((p, i)) => p < phases@.len() && i < phases@[p as int].tasks@.len() && task_at(
                phases_view(phases@),
                content@,
            ) == Some((p as int, i as int)),
            None => task_at(phases_view(phases@), content@) is None,
        },
{
    let ghost all = phases_view(phases@);
    let mut p: usize = 0;
    while p < phases.len()
        invariant
            p <= phases@.len(),
            all == phases_view(phases@),
            task_at(all.take(p as int), content@) is None,
        decreases phases@.len() - p,
    {
        assert(all.take(p + 1).drop_last() == all.take(p as int));
        assert(all.take(p + 1).last() == phases@[p as int]@);
        if let Some(i) = find_in(&phases[p].tasks, content) {
            proof {
                lemma_task_at_prefix(all, content@, p + 1);
            }
            return Some((p, i));
        }
        p = p + 1;
    }
    assert(all.take(all.len() as int) == all);
    None
}

/// The position of the first phase with this name.
pub fn find_phase(phases: &Vec<TodoPhase>, name: &str) -> (r: Option<usize>)
    ensures
        match r {
            Some(p) => p < phases@.len() && phase_at(phases_view(phases@), name@) == Some(p as int),
            None => phase_at(phases_view(phases@), name@) is None,
        },
{
    let ghost all = phases_view(phases@);
    let mut p: usize = 0;
    while p < phases.len()
        invariant
            p <= phases@.len(),
            all == phases_view(phases@),
            phase_at(all.take(p as int), name@) is None,
        decreases phases@.len() - p,
    {
        assert(all.take(p + 1).drop_last() == all.take(p as int));
        assert(all.take(p + 1).last() == phases@[p as int]@);
        if same(phases[p].name.as_str(), name) {
            proof {
                lemma_phase_at_prefix(all, name@, p + 1);
            }
            return Some(p);
        }
        p = p + 1;
    }
    assert(all.take(all.len() as int) == all);
    None
}

/// The phases in which one task has another status.
pub open spec fn with_status(
    phases: Seq<PhaseView>,
    at: (int, int),
    status: TodoStatus,
) -> Seq<PhaseView> {
    let phase = phases[at.0];
    phases.update(
        at.0,
        PhaseView {
            name: phase.name,
            tasks: phase.tasks.update(
                at.1,
                ItemView { content: phase.tasks[at.1].content, status },
            ),
        },
    )
}

/// The phases without one task, and without its phase where that leaves it empty.
pub open spec fn without_task(phases: Seq<PhaseView>, at: (int, int)) -> Seq<PhaseView> {
    let phase = phases[at.0];
    let tasks = phase.tasks.remove(at.1);
    if tasks.len() == 0 {
        phases.remove(at.0)
    } else {
        phases.update(at.0, PhaseView { name: phase.name, tasks })
    }
}

/// A task that is no longer in progress, if it was.
pub open spec fn halted(t: ItemView) -> ItemView {
    if t.status == TodoStatus::InProgress {
        ItemView { content: t.content, status: TodoStatus::Pending }
    } else {
        t
    }
}

/// The phases with nothing in progress: what was is pending again.
pub open spec fn all_halted(phases: Seq<PhaseView>) -> Seq<PhaseView> {
    phases.map_values(
        |p: PhaseView|
            PhaseView { name: p.name, tasks: p.tasks.map_values(|t: ItemView| halted(t)) },
    )
}

fn set_status(phases: &mut Vec<TodoPhase>, p: usize, i: usize, status: TodoStatus)
    requires
        p < old(phases)@.len(),
        i < old(phases)@[p as int].tasks@.len(),
    ensures
        phases_view(final(phases)@) == with_status(
            phases_view(old(phases)@),
            (p as int, i as int),
            status,
        ),
{
    let ghost before = phases@;
    phases[p].tasks[i].status = status;
    proof {
        let want = with_status(phases_view(before), (p as int, i as int), status);
        assert(tasks_view(phases@[p as int].tasks@) =~= want[p as int].tasks);
        assert(phases_view(phases@) =~= want);
    }
}

fn remove_task(phases: &mut Vec<TodoPhase>, p: usize, i: usize)
    requires
        p < old(phases)@.len(),
        i < old(phases)@[p as int].tasks@.len(),
    ensures
        phases_view(final(phases)@) == without_task(
            phases_view(old(phases)@),
            (p as int, i as int),
        ),
{
    let ghost before = phases@;
    let ghost want = without_task(phases_view(before), (p as int, i as int));
    let ghost left = phases_view(before)[p as int].tasks.remove(i as int);
    let gone = phases[p].tasks.remove(i);
    assert(tasks_view(phases@[p as int].tasks@) =~= left);
    if phases[p].tasks.len() == 0 {
        let gone_phase = phases.remove(p);
        assert(phases_view(phases@) =~= want);
    } else {
        assert(phases_view(phases@) =~= want);
    }
}

fn halt_tasks(tasks: &mut Vec<TodoItem>)
    ensures
        tasks_view(final(tasks)@) == tasks_view(old(tasks)@).map_values(|t: ItemView| halted(t)),
{
    let ghost before = tasks@;
    let mut i: usize = 0;
    while i < tasks.len()
        invariant
            i <= tasks@.len(),
            tasks@.len() == before.len(),
            forall|k: int| 0 <= k < i ==> (#[trigger] tasks@[k])@ == halted(before[k]@),
            forall|k: int| i <= k < before.len() ==> #[trigger] tasks@[k] == before[k],
        decreases tasks@.len() - i,
    {
        if tasks[i].status == TodoStatus::InProgress {
            tasks[i].status = TodoStatus::Pending;
        }
        i = i + 1;
    }
    assert(tasks_view(tasks@) =~= tasks_view(before).map_values(|t: ItemView| halted(t)));
}

fn halt_all(phases: &mut Vec<TodoPhase>)
    ensures
        phases_view(final(phases)@) == all_halted(phases_view(old(phases)@)),
{
    let ghost before = phases@;
    let mut p: usize = 0;
    while p < phases.len()
        invariant
            p <= phases@.len(),
            phases@.len() == before.len(),
            forall|k: int|
                0 <= k < p ==> (#[trigger] phases@[k])@ == all_halted(phases_view(before))[k],
            forall|k: int| p <= k < before.len() ==> #[trigger] phases@[k] == before[k],
        decreases phases@.len() - p,
    {
        halt_tasks(&mut phases[p].tasks);
        p = p + 1;
    }
    assert(phases_view(phases@) =~= all_halted(phases_view(before)));
}

// ---------------------------------------------------------------------------
// Operations
// ---------------------------------------------------------------------------

/// What applying an operation comes to: the phases after it and, where it failed, why.
pub struct OpOutcome {
    /// The phases after the operation.
    pub phases: Seq<PhaseView>,
    /// Why it failed.
    pub error: Option<Seq<char>>,
}

/// `head`, the name in quotes, `tail`.
pub open spec fn quoting(head: Seq<char>, name: Seq<char>, tail: Seq<char>) -> Seq<char> {
    head + "'"@ + name + "'"@ + tail
}

fn quote(head: &str, name: &str, tail: &str) -> (r: String)
    ensures
        r@ == quoting(head@, name@, tail@),
{
    let mut r = String::from_str(head);
    r.append("'");
    r.append(name);
    r.append("'");
    r.append(tail);
    r
}

/// What reading the contents of new tasks comes to: the tasks up to the first item that is
/// no text or an empty one, and what is wrong with that item.
pub open spec fn new_tasks(
    items: Seq<JsonView>,
    label: Seq<char>,
    phase: Seq<char>,
) -> (Seq<ItemView>, Option<Seq<char>>)
    decreases items.len(),
{
    if items.len() == 0 {
        (Seq::empty(), None)
    } else {
        let (tasks, error) = new_tasks(items.drop_last(), label, phase);
        if error is Some {
            (tasks, error)
        } else {
            match items.last() {
                JsonView::String(s) => if s.len() == 0 {
                    (
                        tasks,
                        Some(
                            quoting(
                                label + ": task content must not be empty (phase "@,
                                phase,
                                ")"@,
                            ),
                        ),
                    )
                } else {
                    (tasks.push(ItemView { content: s, status: TodoStatus::Pending }), None)
                },
                _ => (
                    tasks,
                    Some(quoting(label + ": items must be strings (phase "@, phase, ")"@)),
                ),
            }
        }
    }
}

/// Once an item is at fault, the items after it do not matter.
proof fn lemma_new_tasks_stop(
    items: Seq<JsonView>,
    label: Seq<char>,
    phase: Seq<char>,
    n: int,
)
    requires
        0 <= n <= items.len(),
        new_tasks(items.take(n), label, phase).1 is Some,
    ensures
        new_tasks(items, label, phase) == new_tasks(items.take(n), label, phase),
    decreases items.len() - n,
{
    if n < items.len() {
        assert(items.take(n + 1).drop_last() == items.take(n));
        lemma_new_tasks_stop(items, label, phase, n + 1);
    } else {
        assert(items.take(n) == items);
    }
}

/// Appends a task for each of `items`, up to the first that is no text or an empty one.
fn push_tasks(tasks: &mut Vec<TodoItem>, items: &Vec<Json>, label: &str, phase: &str) -> (r: Result<
    (),
    String,
>)
    ensures
        ({
            let (new, error) = new_tasks(items_view(items@), label@, phase@);
            &&& tasks_view(final(tasks)@) == tasks_view(old(tasks)@) + new
            &&& match r {
                Ok(()) => error is None,
                Err(e) => error == Some(e@),
            }
        }),
{
    let ghost all = items_view(items@);
    let ghost before = tasks_view(tasks@);
    let mut i: usize = 0;
    assert(before + Seq::<ItemView>::empty() == before);
    assert(all.take(0) == Seq::<JsonView>::empty());
    while i < items.len()
        invariant
            i <= items@.len(),
            all == items_view(items@),
            before == tasks_view(old(tasks)@),
            new_tasks(all.take(i as int), label@, phase@).1 is None,
            tasks_view(tasks@) == before + new_tasks(all.take(i as int), label@, phase@).0,
        decreases items@.len() - i,
    {
        proof {
            assert(all.take(i + 1).drop_last() == all.take(i as int));
            assert(all.take(i + 1).last() == items@[i as int]@);
        }
        match &items[i] {
            Json::String(s) => {
                if s.as_str().unicode_len() == 0 {
                    proof {
                        lemma_new_tasks_stop(all, label@, phase@, i + 1);
                    }
                    let mut head = String::from_str(label);
                    head.append(": task content must not be empty (phase ");
                    return Err(quote(head.as_str(), phase, ")"));
                }
                let ghost ot = tasks@;
                let item = TodoItem { content: s.clone(), status: TodoStatus::Pending };
                tasks.push(item);
                assert(tasks_view(tasks@) =~= tasks_view(ot).push(item@));
            },
            _ => {
                proof {
                    lemma_new_tasks_stop(all, label@, phase@, i + 1);
                }
                let mut head = String::from_str(label);
                head.append(": items must be strings (phase ");
                return Err(quote(head.as_str(), phase, ")"));
            },
        }
        i = i + 1;
    }
    assert(all.take(all.len() as int) == all);
    Ok(())
}

/// The phase that an entry of `init` describes, or what is wrong with it.
pub open spec fn init_phase(entry: JsonView) -> Result<PhaseView, Seq<char>> {
    match string_in(field(entry, "phase"@)) {
        None => Err("init.list: phase is required"@),
        Some(name) => if name.len() == 0 {
            Err("init.list: phase name must not be empty"@)
        } else {
            match array_in(field(entry, "items"@)) {
                None => Err(quoting("init.list: items required for phase "@, name, Seq::empty())),
                Some(items) => if items.len() == 0 {
                    Err(quoting("init.list: items for phase "@, name, " must be non-empty"@))
                } else {
                    match new_tasks(items, "init.list"@, name) {
                        (_, Some(e)) => Err(e),
                        (tasks, None) => Ok(PhaseView { name, tasks }),
                    }
                },
            }
        },
    }
}

/// The phases that the entries of `init` describe, or what is wrong with the first bad one.
pub open spec fn init_phases(list: Seq<JsonView>) -> Result<Seq<PhaseView>, Seq<char>>
    decreases list.len(),
{
    if list.len() == 0 {
        Ok(Seq::empty())
    } else {
        match init_phases(list.drop_last()) {
            Err(e) => Err(e),
            Ok(phases) => match init_phase(list.last()) {
                Err(e) => Err(e),
                Ok(phase) => Ok(phases.push(phase)),
            },
        }
    }
}

proof fn lemma_init_phases_stop(list: Seq<JsonView>, n: int)
    requires
        0 <= n <= list.len(),
        init_phases(list.take(n)) is Err,
    ensures
        init_phases(list) == init_phases(list.take(n)),
    decreases list.len() - n,
{
    if n < list.len() {
        assert(list.take(n + 1).drop_last() == list.take(n));
        lemma_init_phases_stop(list, n + 1);
    } else {
        assert(list.take(n) == list);
    }
}

fn read_init_phase(entry: &Json) -> (r: Result<TodoPhase, String>)
    ensures
        match r {
            Ok(p) => init_phase(entry@) == Ok::<PhaseView, Seq<char>>(p@),
            Err(e) => init_phase(entry@) == Err::<PhaseView, Seq<char>>(e@),
        },
{
    let name = match entry.get_str("phase") {
        Some(s) => s,
        None => return Err(String::from_str("init.list: phase is required")),
    };
    if name.as_str().unicode_len() == 0 {
        return Err(String::from_str("init.list: phase name must not be empty"));
    }
    let items = match entry.get_array("items") {
        Some(items) => items,
        None => {
            let e = quote("init.list: items required for phase ", name.as_str(), "");
            proof {
                reveal_strlit("");
                assert(""@ =~= Seq::<char>::empty());
            }
            return Err(e);
        },
    };
    if items.len() == 0 {
        return Err(quote("init.list: items for phase ", name.as_str(), " must be non-empty"));
    }
    let mut tasks: Vec<TodoItem> = Vec::new();
    match push_tasks(&mut tasks, items, "init.list", name.as_str()) {
        Err(e) => Err(e),
        Ok(()) => {
            let p = TodoPhase { name: name.clone(), tasks };
            assert(p@.tasks =~= new_tasks(items_view(items@), "init.list"@, name@).0);
            Ok(p)
        },
    }
}

fn read_init_phases(list: &Vec<Json>) -> (r: Result<Vec<TodoPhase>, String>)
    ensures
        match r {
            Ok(p) => init_phases(items_view(list@)) == Ok::<Seq<PhaseView>, Seq<char>>(
                phases_view(p@),
            ),
            Err(e) => init_phases(items_view(list@)) == Err::<Seq<PhaseView>, Seq<char>>(e@),
        },
{
    let ghost all = items_view(list@);
    let mut phases: Vec<TodoPhase> = Vec::new();
    let mut i: usize = 0;
    assert(phases_view(phases@) =~= Seq::<PhaseView>::empty());
    assert(all.take(0) == Seq::<JsonView>::empty());
    while i < list.len()
        invariant
            i <= list@.len(),
            all == items_view(list@),
            init_phases(all.take(i as int)) == Ok::<Seq<PhaseView>, Seq<char>>(
                phases_view(phases@),
            ),
        decreases list@.len() - i,
    {
        proof {
            assert(all.take(i + 1).drop_last() == all.take(i as int));
            assert(all.take(i + 1).last() == list@[i as int]@);
        }
        let ghost before = phases@;
        match read_init_phase(&list[i]) {
            Err(e) => {
                proof {
                    lemma_init_phases_stop(all, i + 1);
                }
                return Err(e);
            },
            Ok(p) => {
                phases.push(p);
                assert(phases_view(phases@) =~= phases_view(before).push(p@));
            },
        }
        i = i + 1;
    }
    assert(all.take(all.len() as int) == all);
    Ok(phases)
}

/// The operation leaves the phases alone and reports `error`.
pub open spec fn failing(phases: Seq<PhaseView>, error: Seq<char>) -> OpOutcome {
    OpOutcome { phases, error: Some(error) }
}

/// An operation on the task that `op` names: it fails where `op` names none or one that is
/// not there, and else leads to what `then` says.
pub open spec fn on_task(
    phases: Seq<PhaseView>,
    op: JsonView,
    name: Seq<char>,
    then_phases: spec_fn((int, int)) -> Seq<PhaseView>,
) -> OpOutcome {
    match string_in(field(op, "task"@)) {
        None => failing(phases, name + ": task is required"@),
        Some(task) => match task_at(phases, task) {
            None => failing(phases, quoting(name + ": task "@, task, " not found"@)),
            Some(at) => OpOutcome { phases: then_phases(at), error: None },
        },
    }
}

/// Appending tasks to the phase with this name, which is added where there is none.
pub open spec fn appended(
    phases: Seq<PhaseView>,
    name: Seq<char>,
    items: Seq<JsonView>,
) -> OpOutcome {
    let (tasks, error) = new_tasks(items, "append"@, name);
    let (base, p) = match phase_at(phases, name) {
        Some(p) => (phases, p),
        None => (
            phases.push(PhaseView { name, tasks: Seq::empty() }),
            phases.len() as int,
        ),
    };
    OpOutcome {
        phases: base.update(p, PhaseView { name: base[p].name, tasks: base[p].tasks + tasks }),
        error,
    }
}

/// What applying `op` to `phases` comes to.
pub open spec fn op_outcome(phases: Seq<PhaseView>, op: JsonView) -> OpOutcome {
    match string_in(field(op, "op"@)) {
        None => failing(phases, "missing op field"@),
        Some(name) => if name == "init"@ {
            match array_in(field(op, "list"@)) {
                None => failing(phases, "init: list is required"@),
                Some(list) => match init_phases(list) {
                    Err(e) => failing(phases, e),
                    Ok(new) => OpOutcome { phases: new, error: None },
                },
            }
        } else if name == "start"@ {
            on_task(
                phases,
                op,
                name,
                |at: (int, int)| with_status(all_halted(phases), at, TodoStatus::InProgress),
            )
        } else if name == "done"@ {
            on_task(
                phases,
                op,
                name,
                |at: (int, int)| with_status(phases, at, TodoStatus::Completed),
            )
        } else if name == "rm"@ {
            on_task(phases, op, name, |at: (int, int)| without_task(phases, at))
        } else if name == "drop"@ {
            on_task(
                phases,
                op,
                name,
                |at: (int, int)| with_status(phases, at, TodoStatus::Abandoned),
            )
        } else if name == "append"@ {
            match string_in(field(op, "phase"@)) {
                None => failing(phases, "append: phase is required"@),
                Some(phase) => match array_in(field(op, "items"@)) {
                    None => failing(
                        phases,
                        quoting("append: items required for phase "@, phase, Seq::empty()),
                    ),
                    Some(items) => if items.len() == 0 {
                        failing(
                            phases,
                            quoting("append: items for phase "@, phase, " must be non-empty"@),
                        )
                    } else {
                        appended(phases, phase, items)
                    },
                },
            }
        } else if name == "view"@ {
            OpOutcome { phases, error: None }
        } else {
            failing(phases, quoting("unknown op: "@, name, Seq::empty()))
        },
    }
}

/// The task that `op` names.
fn named_task(phases: &Vec<TodoPhase>, op: &Json, name: &str) -> (r: Result<(usize, usize), String>)
    ensures
        match r {
            Ok((p, i)) => p < phases@.len() && i < phases@[p as int].tasks@.len() && (string_in(
                field(op@, "task"@),
            ) matches Some(task) && task_at(phases_view(phases@), task) == Some(
                (p as int, i as int),
            )),
            Err(e) => match string_in(field(op@, "task"@)) {
                None => e@ == name@ + ": task is required"@,
                Some(task) => task_at(phases_view(phases@), task) is None && e@ == quoting(
                    name@ + ": task "@,
                    task,
                    " not found"@,
                ),
            },
        },
{
    match op.get_str("task") {
        None => {
            let mut e = String::from_str(name);
            e.append(": task is required");
            Err(e)
        },
        Some(task) => match find_task(phases, task.as_str()) {
            None => {
                let mut head = String::from_str(name);
                head.append(": task ");
                Err(quote(head.as_str(), task.as_str(), " not found"))
            },
            Some(at) => Ok(at),
        },
    }
}

fn append_tasks(phases: &mut Vec<TodoPhase>, name: &str, items: &Vec<Json>) -> (r: Result<
    (),
    String,
>)
    ensures
        ({
            let o = appended(phases_view(old(phases)@), name@, items_view(items@));
            &&& phases_view(final(phases)@) == o.phases
            &&& match r {
                Ok(()) => o.error is None,
                Err(e) => o.error == Some(e@),
            }
        }),
{
    let ghost before = phases_view(phases@);
    let ghost o = appended(before, name@, items_view(items@));
    let p: usize = match find_phase(phases, name) {
        Some(p) => p,
        None => {
            let ghost ops = phases@;
            let phase = TodoPhase { name: String::from_str(name), tasks: Vec::new() };
            phases.push(phase);
            assert(phase@.tasks =~= Seq::<ItemView>::empty());
            assert(phases_view(phases@) =~= phases_view(ops).push(phase@));
            phases.len() - 1
        },
    };
    let ghost base = phases_view(phases@);
    let ghost mid = phases@;
    let r = push_tasks(&mut phases[p].tasks, items, "append", name);
    assert(phases_view(phases@) =~= o.phases);
    r
}

/// Applies one operation; on failure says why. A failing `append` may leave its first
/// tasks behind: whoever runs a batch drops the phases of a failed one.
pub fn apply_op(phases: &mut Vec<TodoPhase>, op: &Json) -> (r: Result<(), String>)
    ensures
        phases_view(final(phases)@) == op_outcome(phases_view(old(phases)@), op@).phases,
        match r {
            Ok(()) => op_outcome(phases_view(old(phases)@), op@).error is None,
            Err(e) => op_outcome(phases_view(old(phases)@), op@).error == Some(e@),
        },
{
    let ghost before = phases_view(phases@);
    proof {
        reveal_strlit("");
        assert(""@ =~= Seq::<char>::empty());
    }
    let name = match op.get_str("op") {
        Some(s) => s.as_str(),
        None => return Err(String::from_str("missing op field")),
    };
    if same(name, "init") {
        match op.get_array("list") {
            None => Err(String::from_str("init: list is required")),
            Some(list) => match read_init_phases(list) {
                Err(e) => Err(e),
                Ok(new) => {
                    *phases = new;
                    Ok(())
                },
            },
        }
    } else if same(name, "start") {
        match named_task(phases, op, name) {
            Err(e) => Err(e),
            Ok((p, i)) => {
                halt_all(phases);
                assert(phases_view(phases@).len() == before.len());
                assert(phases_view(phases@)[p as int].tasks.len() == before[p as int].tasks.len());
                assert(phases_view(phases@)[p as int] == phases@[p as int]@);
                set_status(phases, p, i, TodoStatus::InProgress);
                Ok(())
            },
        }
    } else if same(name, "done") {
        match named_task(phases, op, name) {
            Err(e) => Err(e),
            Ok((p, i)) => {
                set_status(phases, p, i, TodoStatus::Completed);
                Ok(())
            },
        }
    } else if same(name, "rm") {
        match named_task(phases, op, name) {
            Err(e) => Err(e),
            Ok((p, i)) => {
                remove_task(phases, p, i);
                Ok(())
            },
        }
    } else if same(name, "drop") {
        match named_task(phases, op, name) {
            Err(e) => Err(e),
            Ok((p, i)) => {
                set_status(phases, p, i, TodoStatus::Abandoned);
                Ok(())
            },
        }
    } else if same(name, "append") {
        let phase = match op.get_str("phase") {
            Some(s) => s.as_str(),
            None => return Err(String::from_str("append: phase is required")),
        };
        let items = match op.get_array("items") {
            Some(items) => items,
            None => return Err(quote("append: items required for phase ", phase, "")),
        };
        if items.len() == 0 {
            return Err(quote("append: items for phase ", phase, " must be non-empty"));
        }
        append_tasks(phases, phase, items)
    } else if same(name, "view") {
        Ok(())
    } else {
        Err(quote("unknown op: ", name, ""))
    }
}

// ---------------------------------------------------------------------------
// Normalization
// ---------------------------------------------------------------------------

/// Some task has this status.
pub open spec fn any_with(tasks: Seq<ItemView>, status: TodoStatus) -> bool {
    exists|i: int| 0 <= i < tasks.len() && (#[trigger] tasks[i]).status == status
}

/// Some task in one of the first `n` phases has this status.
pub open spec fn any_before(phases: Seq<PhaseView>, n: int, status: TodoStatus) -> bool {
    exists|p: int| 0 <= p < n && p < phases.len() && any_with((#[trigger] phases[p]).tasks, status)
}

/// The tasks in which one that is in progress goes back to pending where another one stands
/// before it; `seen` says whether one stands before all of them.
pub open spec fn keep_first_in(tasks: Seq<ItemView>, seen: bool) -> Seq<ItemView> {
    Seq::new(
        tasks.len(),
        |i: int|
            if seen || any_with(tasks.take(i), TodoStatus::InProgress) {
                halted(tasks[i])
            } else {
                tasks[i]
            },
    )
}

/// The phases in which only the first task that was in progress still is.
pub open spec fn keep_first(phases: Seq<PhaseView>) -> Seq<PhaseView> {
    Seq::new(
        phases.len(),
        |p: int|
            PhaseView {
                name: phases[p].name,
                tasks: keep_first_in(
                    phases[p].tasks,
                    any_before(phases, p, TodoStatus::InProgress),
                ),
            },
    )
}

/// A task that is in progress, if it was pending.
pub open spec fn started(t: ItemView) -> ItemView {
    if t.status == TodoStatus::Pending {
        ItemView { content: t.content, status: TodoStatus::InProgress }
    } else {
        t
    }
}

/// The tasks in which the first pending one is started, unless `seen` says that one stands
/// before all of them.
pub open spec fn start_first_in(tasks: Seq<ItemView>, seen: bool) -> Seq<ItemView> {
    Seq::new(
        tasks.len(),
        |i: int|
            if seen || any_with(tasks.take(i), TodoStatus::Pending) {
                tasks[i]
            } else {
                started(tasks[i])
            },
    )
}

/// The phases in which, where nothing is in progress, the first pending task is started.
pub open spec fn start_first(phases: Seq<PhaseView>) -> Seq<PhaseView> {
    if any_before(phases, phases.len() as int, TodoStatus::InProgress) {
        phases
    } else {
        Seq::new(
            phases.len(),
            |p: int|
                PhaseView {
                    name: phases[p].name,
                    tasks: start_first_in(
                        phases[p].tasks,
                        any_before(phases, p, TodoStatus::Pending),
                    ),
                },
        )
    }
}

/// The phases as a batch leaves them: of the tasks in progress only the first stays so, and
/// where there is none, the first pending one is started.
pub open spec fn normalized(phases: Seq<PhaseView>) -> Seq<PhaseView> {
    start_first(keep_first(phases))
}

fn keep_first_tasks(tasks: &mut Vec<TodoItem>, seen: bool) -> (r: bool)
    ensures
        tasks_view(final(tasks)@) == keep_first_in(tasks_view(old(tasks)@), seen),
        r == (seen || any_with(tasks_view(old(tasks)@), TodoStatus::InProgress)),
{
    let ghost before = tasks_view(tasks@);
    let ghost ot = tasks@;
    let mut found = seen;
    let mut i: usize = 0;
    while i < tasks.len()
        invariant
            i <= tasks@.len(),
            tasks@.len() == ot.len(),
            before == tasks_view(ot),
            found == (seen || any_with(before.take(i as int), TodoStatus::InProgress)),
            forall|k: int|
                0 <= k < i ==> (#[trigger] tasks@[k])@ == keep_first_in(before, seen)[k],
            forall|k: int| i <= k < ot.len() ==> #[trigger] tasks@[k] == ot[k],
        decreases tasks@.len() - i,
    {
        let ghost next = before.take(i + 1);
        let ghost head = before.take(i as int);
        assert(next[i as int] == before[i as int]);
        assert(before[i as int] == ot[i as int]@);
        assert(forall|k: int| 0 <= k < i ==> next[k] == head[k]);
        if tasks[i].status == TodoStatus::InProgress {
            if found {
                tasks[i].status = TodoStatus::Pending;
            } else {
                found = true;
            }
            assert(any_with(next, TodoStatus::InProgress));
        } else {
            assert(any_with(next, TodoStatus::InProgress) == any_with(head, TodoStatus::InProgress))
                by {
                if any_with(next, TodoStatus::InProgress) {
                    let k = choose|k: int|
                        0 <= k < next.len() && (#[trigger] next[k]).status
                            == TodoStatus::InProgress;
                    assert(head[k].status == TodoStatus::InProgress);
                }
                if any_with(head, TodoStatus::InProgress) {
                    let k = choose|k: int|
                        0 <= k < head.len() && (#[trigger] head[k]).status
                            == TodoStatus::InProgress;
                    assert(next[k].status == TodoStatus::InProgress);
                }
            }
        }
        i = i + 1;
    }
    assert(before.take(before.len() as int) == before);
    assert(tasks_view(tasks@) =~= keep_first_in(before, seen));
    found
}

fn start_first_task(tasks: &mut Vec<TodoItem>) -> (r: bool)
    ensures
        tasks_view(final(tasks)@) == start_first_in(tasks_view(old(tasks)@), false),
        r == any_with(tasks_view(old(tasks)@), TodoStatus::Pending),
        !r ==> *final(tasks) == *old(tasks),
{
    let ghost before = tasks_view(tasks@);
    let ghost ot = tasks@;
    let mut i: usize = 0;
    while i < tasks.len()
        invariant
            i <= tasks@.len(),
            *tasks == *old(tasks),
            tasks@ == ot,
            before == tasks_view(ot),
            before == tasks_view(old(tasks)@),
            forall|k: int| 0 <= k < i ==> (#[trigger] before[k]).status != TodoStatus::Pending,
        decreases tasks@.len() - i,
    {
        assert(before[i as int] == ot[i as int]@);
        if tasks[i].status == TodoStatus::Pending {
            tasks[i].status = TodoStatus::InProgress;
            assert(any_with(before, TodoStatus::Pending));
            let ghost want = start_first_in(before, false);
            assert forall|k: int| 0 <= k < before.len() implies #[trigger] tasks_view(tasks@)[k]
                == want[k] by {
                let head = before.take(k);
                if k > i {
                    assert(head[i as int].status == TodoStatus::Pending);
                    assert(any_with(head, TodoStatus::Pending));
                    assert(tasks@[k] == ot[k]);
                } else {
                    if any_with(head, TodoStatus::Pending) {
                        let j = choose|j: int|
                            0 <= j < head.len() && (#[trigger] head[j]).status
                                == TodoStatus::Pending;
                        assert(before[j].status == TodoStatus::Pending);
                    }
                }
            }
            assert(tasks_view(tasks@) =~= want);
            return true;
        }
        i = i + 1;
    }
    let ghost want = start_first_in(before, false);
    assert(tasks_view(tasks@) =~= want);
    false
}

proof fn lemma_any_before_step(phases: Seq<PhaseView>, n: int, status: TodoStatus)
    requires
        0 <= n < phases.len(),
    ensures
        any_before(phases, n + 1, status) == (any_before(phases, n, status) || any_with(
            phases[n].tasks,
            status,
        )),
{
    if any_with(phases[n].tasks, status) {
        assert(any_before(phases, n + 1, status));
    }
    if any_before(phases, n, status) {
        let p = choose|p: int|
            0 <= p < n && p < phases.len() && any_with((#[trigger] phases[p]).tasks, status);
        assert(any_with(phases[p].tasks, status));
        assert(any_before(phases, n + 1, status));
    }
    if any_before(phases, n + 1, status) {
        let p = choose|p: int|
            0 <= p < n + 1 && p < phases.len() && any_with((#[trigger] phases[p]).tasks, status);
        if p < n {
            assert(any_before(phases, n, status));
        }
    }
}

fn keep_first_phases(phases: &mut Vec<TodoPhase>) -> (r: bool)
    ensures
        phases_view(final(phases)@) == keep_first(phases_view(old(phases)@)),
        r == any_before(
            phases_view(old(phases)@),
            old(phases)@.len() as int,
            TodoStatus::InProgress,
        ),
{
    let ghost before = phases_view(phases@);
    let ghost op = phases@;
    let mut found = false;
    let mut p: usize = 0;
    while p < phases.len()
        invariant
            p <= phases@.len(),
            phases@.len() == op.len(),
            before == phases_view(op),
            found == any_before(before, p as int, TodoStatus::InProgress),
            forall|k: int| 0 <= k < p ==> (#[trigger] phases@[k])@ == keep_first(before)[k],
            forall|k: int| p <= k < op.len() ==> #[trigger] phases@[k] == op[k],
        decreases phases@.len() - p,
    {
        proof {
            lemma_any_before_step(before, p as int, TodoStatus::InProgress);
            assert(before[p as int] == op[p as int]@);
        }
        found = keep_first_tasks(&mut phases[p].tasks, found);
        p = p + 1;
    }
    assert(phases_view(phases@) =~= keep_first(before));
    found
}

/// Leaves at most one task in progress: the first. Where there is none, the first pending
/// one is started.
pub fn normalize(phases: &mut Vec<TodoPhase>)
    ensures
        phases_view(final(phases)@) == normalized(phases_view(old(phases)@)),
{
    let ghost first = phases_view(phases@);
    let found = keep_first_phases(phases);
    let ghost kept = phases_view(phases@);
    proof {
        lemma_keep_first_keeps_one(first);
    }
    if found {
        return ;
    }
    let ghost op = phases@;
    let ghost want = start_first(kept);
    let mut p: usize = 0;
    while p < phases.len()
        invariant
            p <= phases@.len(),
            phases@ == op,
            kept == phases_view(op),
            kept == keep_first(phases_view(old(phases)@)),
            want == start_first(kept),
            !any_before(kept, kept.len() as int, TodoStatus::InProgress),
            !any_before(kept, p as int, TodoStatus::Pending),
            forall|k: int| 0 <= k < p ==> want[k] == kept[k],
        decreases phases@.len() - p,
    {
        proof {
            lemma_any_before_step(kept, p as int, TodoStatus::Pending);
            assert(kept[p as int] == op[p as int]@);
        }
        let started_one = start_first_task(&mut phases[p].tasks);
        if started_one {
            assert forall|k: int| 0 <= k < kept.len() implies #[trigger] phases_view(phases@)[k]
                == want[k] by {
                if k > p {
                    assert(any_with(kept[p as int].tasks, TodoStatus::Pending));
                    assert(any_before(kept, k, TodoStatus::Pending));
                    assert(want[k].tasks =~= kept[k].tasks);
                    assert(phases@[k] == op[k]);
                } else if k < p {
                    assert(phases@[k] == op[k]);
                }
            }
            assert(phases_view(phases@) =~= want);
            return ;
        }
        proof {
            assert(want[p as int].tasks =~= kept[p as int].tasks) by {
                let tasks = kept[p as int].tasks;
                assert forall|i: int| 0 <= i < tasks.len() implies want[p as int].tasks[i]
                    == tasks[i] by {
                    assert(tasks[i].status != TodoStatus::Pending);
                }
            }
        }
        assert(tasks_view(phases@[p as int].tasks@) =~= tasks_view(op[p as int].tasks@));
        p = p + 1;
    }
    assert(phases_view(phases@) =~= want);
}

/// Where some task has a status, there is a first one.
proof fn lemma_first_with(tasks: Seq<ItemView>, status: TodoStatus) -> (i: int)
    requires
        any_with(tasks, status),
    ensures
        0 <= i < tasks.len(),
        tasks[i].status == status,
        !any_with(tasks.take(i), status),
    decreases tasks.len(),
{
    let k = choose|k: int| 0 <= k < tasks.len() && (#[trigger] tasks[k]).status == status;
    let head = tasks.take(k);
    if any_with(head, status) {
        let i = lemma_first_with(head, status);
        assert(head.take(i) == tasks.take(i));
        i
    } else {
        k
    }
}

/// Where some phase has a task with a status, there is a first such phase.
proof fn lemma_first_phase(phases: Seq<PhaseView>, n: int, status: TodoStatus) -> (p: int)
    requires
        0 <= n <= phases.len(),
        any_before(phases, n, status),
    ensures
        0 <= p < n,
        any_with(phases[p].tasks, status),
        !any_before(phases, p, status),
    decreases n,
{
    lemma_any_before_step(phases, n - 1, status);
    if any_before(phases, n - 1, status) {
        lemma_first_phase(phases, n - 1, status)
    } else {
        n - 1
    }
}

/// Where a task was in progress, one still is after the others were sent back.
proof fn lemma_keep_first_keeps_one(phases: Seq<PhaseView>)
    ensures
        any_before(phases, phases.len() as int, TodoStatus::InProgress) == any_before(
            keep_first(phases),
            phases.len() as int,
            TodoStatus::InProgress,
        ),
{
    let kept = keep_first(phases);
    let n = phases.len() as int;
    if any_before(phases, n, TodoStatus::InProgress) {
        let p = lemma_first_phase(phases, n, TodoStatus::InProgress);
        let i = lemma_first_with(phases[p].tasks, TodoStatus::InProgress);
        assert(kept[p].tasks[i].status == TodoStatus::InProgress);
        assert(any_with(kept[p].tasks, TodoStatus::InProgress));
    }
    if any_before(kept, n, TodoStatus::InProgress) {
        let p = choose|p: int|
            0 <= p < n && p < kept.len() && any_with(
                (#[trigger] kept[p]).tasks,
                TodoStatus::InProgress,
            );
        let i = choose|i: int|
            0 <= i < kept[p].tasks.len() && (#[trigger] kept[p].tasks[i]).status
                == TodoStatus::InProgress;
        assert(phases[p].tasks[i].status == TodoStatus::InProgress);
        assert(any_with(phases[p].tasks, TodoStatus::InProgress));
    }
}

/// At most one task is in progress.
pub open spec fn at_most_one_in_progress(phases: Seq<PhaseView>) -> bool {
    forall|p: int, i: int, q: int, j: int|
        #![trigger phases[p].tasks[i], phases[q].tasks[j]]
        in_progress_at(phases, p, i) && in_progress_at(phases, q, j) ==> p == q && i == j
}

/// The task at position `i` of phase `p` is in progress.
pub open spec fn in_progress_at(phases: Seq<PhaseView>, p: int, i: int) -> bool {
    0 <= p < phases.len() && 0 <= i < phases[p].tasks.len() && phases[p].tasks[i].status
        == TodoStatus::InProgress
}

proof fn lemma_keep_first_at_most_one(phases: Seq<PhaseView>)
    ensures
        at_most_one_in_progress(keep_first(phases)),
{
    let kept = keep_first(phases);
    assert forall|p: int, i: int, q: int, j: int|
        #![trigger kept[p].tasks[i], kept[q].tasks[j]]
        in_progress_at(kept, p, i) && in_progress_at(kept, q, j) implies p == q && i == j by {
        assert(phases[p].tasks[i].status == TodoStatus::InProgress);
        assert(phases[q].tasks[j].status == TodoStatus::InProgress);
        if p < q {
            assert(any_with(phases[p].tasks, TodoStatus::InProgress));
            assert(any_before(phases, q, TodoStatus::InProgress));
        } else if q < p {
            assert(any_with(phases[q].tasks, TodoStatus::InProgress));
            assert(any_before(phases, p, TodoStatus::InProgress));
        } else if i < j {
            assert(phases[p].tasks.take(j)[i].status == TodoStatus::InProgress);
            assert(any_with(phases[p].tasks.take(j), TodoStatus::InProgress));
        } else if j < i {
            assert(phases[p].tasks.take(i)[j].status == TodoStatus::InProgress);
            assert(any_with(phases[p].tasks.take(i), TodoStatus::InProgress));
        }
    }
}

/// After normalization at most one task is in progress.
pub proof fn law_normalized_at_most_one(phases: Seq<PhaseView>)
    ensures
        at_most_one_in_progress(normalized(phases)),
{
    let kept = keep_first(phases);
    lemma_keep_first_at_most_one(phases);
    let n = normalized(phases);
    if !any_before(kept, kept.len() as int, TodoStatus::InProgress) {
        assert forall|p: int, i: int| #![trigger n[p].tasks[i]] in_progress_at(n, p, i) implies
            kept[p].tasks[i].status == TodoStatus::Pending && !any_before(
            kept,
            p,
            TodoStatus::Pending,
        ) && !any_with(kept[p].tasks.take(i), TodoStatus::Pending) by {
            if kept[p].tasks[i].status == TodoStatus::InProgress {
                assert(any_with(kept[p].tasks, TodoStatus::InProgress));
            }
        }
        assert forall|p: int, i: int, q: int, j: int|
            #![trigger n[p].tasks[i], n[q].tasks[j]]
            in_progress_at(n, p, i) && in_progress_at(n, q, j) implies p == q && i == j by {
            if p < q {
                assert(any_with(kept[p].tasks, TodoStatus::Pending));
                assert(any_before(kept, q, TodoStatus::Pending));
            } else if q < p {
                assert(any_with(kept[q].tasks, TodoStatus::Pending));
                assert(any_before(kept, p, TodoStatus::Pending));
            } else if i < j {
                assert(kept[p].tasks.take(j)[i].status == TodoStatus::Pending);
            } else if j < i {
                assert(kept[p].tasks.take(i)[j].status == TodoStatus::Pending);
            }
        }
    }
}

/// After normalization a task is in progress wherever one is pending.
pub proof fn law_normalized_advances(phases: Seq<PhaseView>)
    ensures
        any_before(normalized(phases), phases.len() as int, TodoStatus::Pending) ==> any_before(
            normalized(phases),
            phases.len() as int,
            TodoStatus::InProgress,
        ),
{
    let kept = keep_first(phases);
    let n = normalized(phases);
    let len = phases.len() as int;
    if !any_before(kept, len, TodoStatus::InProgress) && any_before(n, len, TodoStatus::Pending) {
        let q = choose|q: int|
            0 <= q < len && q < n.len() && any_with((#[trigger] n[q]).tasks, TodoStatus::Pending);
        let j = choose|j: int|
            0 <= j < n[q].tasks.len() && (#[trigger] n[q].tasks[j]).status == TodoStatus::Pending;
        assert(kept[q].tasks[j].status == TodoStatus::Pending);
        assert(any_with(kept[q].tasks, TodoStatus::Pending));
        assert(any_before(kept, len, TodoStatus::Pending));
        let p = lemma_first_phase(kept, len, TodoStatus::Pending);
        let i = lemma_first_with(kept[p].tasks, TodoStatus::Pending);
        assert(n[p].tasks[i].status == TodoStatus::InProgress);
        assert(any_with(n[p].tasks, TodoStatus::InProgress));
    }
}

/// Normalization keeps every phase and task in its place, and never touches a task that is
/// completed or abandoned.
pub proof fn law_normalized_keeps_tasks(phases: Seq<PhaseView>, p: int, i: int)
    requires
        0 <= p < phases.len(),
    ensures
        normalized(phases).len() == phases.len(),
        normalized(phases)[p].name == phases[p].name,
        normalized(phases)[p].tasks.len() == phases[p].tasks.len(),
        0 <= i < phases[p].tasks.len() ==> {
            let old_task = phases[p].tasks[i];
            let new_task = normalized(phases)[p].tasks[i];
            &&& new_task.content == old_task.content
            &&& old_task.status == TodoStatus::Completed || old_task.status
                == TodoStatus::Abandoned ==> new_task == old_task
        },
{
}

/// Normalizing twice is normalizing once.
pub proof fn law_normalized_idempotent(phases: Seq<PhaseView>)
    ensures
        normalized(normalized(phases)) == normalized(phases),
{
    let n = normalized(phases);
    let kept = keep_first(n);
    law_normalized_at_most_one(phases);
    assert forall|p: int| 0 <= p < n.len() implies #[trigger] kept[p] == n[p] by {
        assert forall|i: int| 0 <= i < n[p].tasks.len() implies #[trigger] kept[p].tasks[i]
            == n[p].tasks[i] by {
            if n[p].tasks[i].status == TodoStatus::InProgress {
                if any_before(n, p, TodoStatus::InProgress) {
                    let q = choose|q: int|
                        0 <= q < p && q < n.len() && any_with(
                            (#[trigger] n[q]).tasks,
                            TodoStatus::InProgress,
                        );
                    let j = choose|j: int|
                        0 <= j < n[q].tasks.len() && (#[trigger] n[q].tasks[j]).status
                            == TodoStatus::InProgress;
                    assert(in_progress_at(n, q, j) && in_progress_at(n, p, i));
                }
                let head = n[p].tasks.take(i);
                if any_with(head, TodoStatus::InProgress) {
                    let j = choose|j: int|
                        0 <= j < head.len() && (#[trigger] head[j]).status
                            == TodoStatus::InProgress;
                    assert(n[p].tasks[j].status == TodoStatus::InProgress);
                    assert(in_progress_at(n, p, j) && in_progress_at(n, p, i));
                }
            }
        }
        assert(kept[p].tasks =~= n[p].tasks);
    }
    assert(kept =~= n);
    law_normalized_advances(phases);
    let len = n.len() as int;
    if !any_before(n, len, TodoStatus::InProgress) {
        assert(!any_before(n, len, TodoStatus::Pending));
        let s = start_first(n);
        assert forall|p: int| 0 <= p < n.len() implies #[trigger] s[p] == n[p] by {
            assert forall|i: int| 0 <= i < n[p].tasks.len() implies #[trigger] s[p].tasks[i]
                == n[p].tasks[i] by {
                if n[p].tasks[i].status == TodoStatus::Pending {
                    assert(any_with(n[p].tasks, TodoStatus::Pending));
                }
            }
            assert(s[p].tasks =~= n[p].tasks);
        }
        assert(s =~= n);
    }
}

/// Starting a task that is there leaves that task, and no other, in progress.
pub proof fn law_start(phases: Seq<PhaseView>, op: JsonView, task: Seq<char>)
    requires
        string_in(field(op, "op"@)) == Some("start"@),
        string_in(field(op, "task"@)) == Some(task),
        task_at(phases, task) is Some,
    ensures
        ({
            let o = op_outcome(phases, op);
            let (p, i) = task_at(phases, task)->0;
            &&& o.error is None
            &&& in_progress_at(o.phases, p, i)
            &&& o.phases[p].tasks[i].content == task
            &&& at_most_one_in_progress(o.phases)
        }),
{
    lemma_task_at(phases, task);
    reveal_strlit("start");
    reveal_strlit("init");
    assert("start"@.len() != "init"@.len());
    let (p, i) = task_at(phases, task)->0;
    let o = op_outcome(phases, op).phases;
    assert(o == with_status(all_halted(phases), (p, i), TodoStatus::InProgress));
    assert forall|a: int, b: int| #![trigger o[a].tasks[b]] in_progress_at(o, a, b) implies a == p
        && b == i by {
        if a != p || b != i {
            assert(o[a].tasks[b] == halted(phases[a].tasks[b]));
        }
    }
}

// ---------------------------------------------------------------------------
// Completions
// ---------------------------------------------------------------------------

/// The status of the last task with this content.
pub open spec fn status_in(tasks: Seq<ItemView>, content: Seq<char>) -> Option<TodoStatus>
    decreases tasks.len(),
{
    if tasks.len() == 0 {
        None
    } else if tasks.last().content == content {
        Some(tasks.last().status)
    } else {
        status_in(tasks.drop_last(), content)
    }
}

/// The status of the last task with this content in a phase with this name.
pub open spec fn status_at(
    phases: Seq<PhaseView>,
    name: Seq<char>,
    content: Seq<char>,
) -> Option<TodoStatus>
    decreases phases.len(),
{
    if phases.len() == 0 {
        None
    } else if phases.last().name == name && status_in(phases.last().tasks, content) is Some {
        status_in(phases.last().tasks, content)
    } else {
        status_at(phases.drop_last(), name, content)
    }
}

/// What is recorded of a task: phase and content where it is completed and was not before.
pub open spec fn completion_of(prev: Seq<PhaseView>, name: Seq<char>, t: ItemView) -> Option<
    (Seq<char>, Seq<char>),
> {
    if t.status == TodoStatus::Completed && status_at(prev, name, t.content) != Some(
        TodoStatus::Completed,
    ) {
        Some((name, t.content))
    } else {
        None
    }
}

/// The tasks of `updated` that are completed and were not in `prev`, in order.
pub open spec fn completions(prev: Seq<PhaseView>, updated: Seq<PhaseView>) -> Seq<
    (Seq<char>, Seq<char>),
>
    decreases updated.len(),
{
    if updated.len() == 0 {
        Seq::empty()
    } else {
        let phase = updated.last();
        completions(prev, updated.drop_last()) + phase.tasks.filter_map(
            |t: ItemView| completion_of(prev, phase.name, t),
        )
    }
}

fn last_status_in(tasks: &Vec<TodoItem>, content: &str) -> (r: Option<TodoStatus>)
    ensures
        r == status_in(tasks_view(tasks@), content@),
{
    let ghost all = tasks_view(tasks@);
    let mut i: usize = tasks.len();
    assert(all.take(all.len() as int) == all);
    while i > 0
        invariant
            i <= tasks@.len(),
            all == tasks_view(tasks@),
            status_in(all, content@) == status_in(all.take(i as int), content@),
        decreases i,
    {
        assert(all.take(i as int).drop_last() == all.take(i - 1));
        assert(all.take(i as int).last() == tasks@[i - 1]@);
        if same(tasks[i - 1].content.as_str(), content) {
            return Some(tasks[i - 1].status);
        }
        i = i - 1;
    }
    None
}

fn last_status_at(phases: &Vec<TodoPhase>, name: &str, content: &str) -> (r: Option<TodoStatus>)
    ensures
        r == status_at(phases_view(phases@), name@, content@),
{
    let ghost all = phases_view(phases@);
    let mut p: usize = phases.len();
    assert(all.take(all.len() as int) == all);
    while p > 0
        invariant
            p <= phases@.len(),
            all == phases_view(phases@),
            status_at(all, name@, content@) == status_at(all.take(p as int), name@, content@),
        decreases p,
    {
        assert(all.take(p as int).drop_last() == all.take(p - 1));
        assert(all.take(p as int).last() == phases@[p - 1]@);
        if same(phases[p - 1].name.as_str(), name) {
            let found = last_status_in(&phases[p - 1].tasks, content);
            if found.is_some() {
                return found;
            }
        }
        p = p - 1;
    }
    None
}

fn push_completions(out: &mut Vec<TodoCompletion>, prev: &Vec<TodoPhase>, phase: &TodoPhase)
    ensures
        completions_view(final(out)@) == completions_view(old(out)@) + phase@.tasks.filter_map(
            |t: ItemView| completion_of(phases_view(prev@), phase@.name, t),
        ),
{
    let ghost before = completions_view(out@);
    let ghost all = phase@.tasks;
    let ghost pv = phases_view(prev@);
    let ghost f = |t: ItemView| completion_of(pv, phase@.name, t);
    let mut i: usize = 0;
    assert(all.take(0).filter_map(f) == Seq::<(Seq<char>, Seq<char>)>::empty()) by {
        reveal_with_fuel(Seq::filter_map, 1);
    }
    assert(completions_view(out@) =~= before + all.take(0).filter_map(f));
    while i < phase.tasks.len()
        invariant
            i <= phase.tasks@.len(),
            all == phase@.tasks,
            pv == phases_view(prev@),
            f == |t: ItemView| completion_of(pv, phase@.name, t),
            before == completions_view(old(out)@),
            completions_view(out@) == before + all.take(i as int).filter_map(f),
        decreases phase.tasks@.len() - i,
    {
        proof {
            all.lemma_filter_map_take_succ(f, i as int);
            assert(all[i as int] == phase.tasks@[i as int]@);
        }
        let ghost ov = out@;
        if phase.tasks[i].status == TodoStatus::Completed {
            let was = last_status_at(prev, phase.name.as_str(), phase.tasks[i].content.as_str());
            let done_before = match was {
                Some(TodoStatus::Completed) => true,
                _ => false,
            };
            if !done_before {
                let c = TodoCompletion {
                    phase: phase.name.clone(),
                    content: phase.tasks[i].content.clone(),
                };
                out.push(c);
                assert(completions_view(out@) =~= completions_view(ov).push((c.phase@, c.content@)));
            }
        }
        assert(completions_view(out@) =~= before + all.take(i + 1).filter_map(f));
        i = i + 1;
    }
    assert(all.take(all.len() as int) == all);
}

/// The tasks of `updated` that are completed and were not in `prev`.
pub fn detect_completions(prev: &Vec<TodoPhase>, updated: &Vec<TodoPhase>) -> (r: Vec<
    TodoCompletion,
>)
    ensures
        completions_view(r@) == completions(phases_view(prev@), phases_view(updated@)),
{
    let ghost all = phases_view(updated@);
    let ghost pv = phases_view(prev@);
    let mut r: Vec<TodoCompletion> = Vec::new();
    let mut p: usize = 0;
    assert(completions_view(r@) =~= completions(pv, all.take(0)));
    while p < updated.len()
        invariant
            p <= updated@.len(),
            all == phases_view(updated@),
            pv == phases_view(prev@),
            completions_view(r@) == completions(pv, all.take(p as int)),
        decreases updated@.len() - p,
    {
        assert(all.take(p + 1).drop_last() == all.take(p as int));
        assert(all.take(p + 1).last() == updated@[p as int]@);
        push_completions(&mut r, prev, &updated[p]);
        p = p + 1;
    }
    assert(all.take(all.len() as int) == all);
    r
}

// ---------------------------------------------------------------------------
// A batch
// ---------------------------------------------------------------------------

/// The phases after all of `ops`, and what went wrong, in order.
pub open spec fn batch(phases: Seq<PhaseView>, ops: Seq<JsonView>) -> (
    Seq<PhaseView>,
    Seq<Seq<char>>,
)
    decreases ops.len(),
{
    if ops.len() == 0 {
        (phases, Seq::empty())
    } else {
        let (mid, errors) = batch(phases, ops.drop_last());
        let o = op_outcome(mid, ops.last());
        (
            o.phases,
            match o.error {
                Some(e) => errors.push(e),
                None => errors,
            },
        )
    }
}

/// Every operation only looks.
pub open spec fn read_only(ops: Seq<JsonView>) -> bool {
    forall|i: int|
        0 <= i < ops.len() ==> string_in(field(#[trigger] ops[i], "op"@)) == Some("view"@)
}

/// What the tool answers to an input.
pub open spec fn todo_outcome(input: JsonView) -> Result<TodoResultView, ErrorView> {
    match array_in(field(input, "ops"@)) {
        None => Err(ErrorView::Other("ops is required (array)"@)),
        Some(ops) => if ops.len() == 0 {
            Err(ErrorView::Other("ops must not be empty"@))
        } else {
            let prev = current_phases(input);
            let (phases, errors) = batch(prev, ops);
            if read_only(ops) {
                Ok(
                    TodoResultView {
                        phases: prev,
                        completed_tasks: Seq::empty(),
                        errors: Seq::empty(),
                    },
                )
            } else if errors.len() > 0 {
                Ok(TodoResultView { phases: prev, completed_tasks: Seq::empty(), errors })
            } else {
                let after = normalized(phases);
                Ok(
                    TodoResultView {
                        phases: after,
                        completed_tasks: completions(prev, after),
                        errors: Seq::empty(),
                    },
                )
            }
        },
    }
}

fn only_views(ops: &Vec<Json>) -> (r: bool)
    ensures
        r == read_only(items_view(ops@)),
{
    let ghost all = items_view(ops@);
    let mut i: usize = 0;
    while i < ops.len()
        invariant
            i <= ops@.len(),
            all == items_view(ops@),
            forall|k: int|
                0 <= k < i ==> string_in(field(#[trigger] all[k], "op"@)) == Some("view"@),
        decreases ops@.len() - i,
    {
        assert(all[i as int] == ops@[i as int]@);
        match ops[i].get_str("op") {
            Some(s) => if !same(s.as_str(), "view") {
                return false;
            },
            None => return false,
        }
        i = i + 1;
    }
    true
}

/// Runs a batch on the phases that the input hands in.
pub fn run_todo(input: &Json) -> (r: Result<TodoResult, ToolError>)
    ensures
        match r {
            Ok(t) => todo_outcome(input@) == Ok::<TodoResultView, ErrorView>(t@),
            Err(e) => todo_outcome(input@) == Err::<TodoResultView, ErrorView>(e@),
        },
{
    let prev = parse_current_phases(input);
    let ops = match input.get_array("ops") {
        Some(ops) => ops,
        None => return Err(ToolError::other("ops is required (array)")),
    };
    if ops.len() == 0 {
        return Err(ToolError::other("ops must not be empty"));
    }
    if only_views(ops) {
        let t = TodoResult { phases: prev, completed_tasks: Vec::new(), errors: Vec::new() };
        assert(t@.completed_tasks =~= Seq::<(Seq<char>, Seq<char>)>::empty());
        assert(t@.errors =~= Seq::<Seq<char>>::empty());
        return Ok(t);
    }
    let ghost all = items_view(ops@);
    let ghost pv = phases_view(prev@);
    let mut phases = parse_current_phases(input);
    let mut errors: Vec<String> = Vec::new();
    let mut i: usize = 0;
    assert(crate::text::views(errors@) =~= batch(pv, all.take(0)).1);
    while i < ops.len()
        invariant
            i <= ops@.len(),
            all == items_view(ops@),
            phases_view(phases@) == batch(pv, all.take(i as int)).0,
            crate::text::views(errors@) == batch(pv, all.take(i as int)).1,
        decreases ops@.len() - i,
    {
        assert(all.take(i + 1).drop_last() == all.take(i as int));
        assert(all.take(i + 1).last() == ops@[i as int]@);
        let ghost oe = errors@;
        if let Err(e) = apply_op(&mut phases, &ops[i]) {
            errors.push(e);
            assert(crate::text::views(errors@) =~= crate::text::views(oe).push(e@));
        }
        i = i + 1;
    }
    assert(all.take(all.len() as int) == all);
    if errors.len() > 0 {
        let t = TodoResult { phases: prev, completed_tasks: Vec::new(), errors };
        assert(t@.completed_tasks =~= Seq::<(Seq<char>, Seq<char>)>::empty());
        return Ok(t);
    }
    normalize(&mut phases);
    let completed_tasks = detect_completions(&prev, &phases);
    let t = TodoResult { phases, completed_tasks, errors };
    assert(t@.errors =~= Seq::<Seq<char>>::empty());
    Ok(t)
}

/// A batch is atomic: where it reports an error, the phases are the ones handed in and
/// nothing counts as completed; where it reports none and is not made of `view` alone, at
/// most one task is in progress and, where one is pending, one is.
pub proof fn law_todo_atomic(input: JsonView)
    requires
        todo_outcome(input) is Ok,
    ensures
        ({
            let t = todo_outcome(input)->Ok_0;
            let ops = array_in(field(input, "ops"@))->0;
            &&& t.errors.len() > 0 ==> t.phases == current_phases(input)
                && t.completed_tasks.len() == 0
            &&& read_only(ops) ==> t.phases == current_phases(input) && t.errors.len() == 0
            &&& t.errors.len() == 0 && !read_only(ops) ==> {
                &&& at_most_one_in_progress(t.phases)
                &&& any_before(t.phases, t.phases.len() as int, TodoStatus::Pending) ==> any_before(
                    t.phases,
                    t.phases.len() as int,
                    TodoStatus::InProgress,
                )
            }
        }),
{
    let ops = array_in(field(input, "ops"@))->0;
    let phases = batch(current_phases(input), ops).0;
    law_normalized_at_most_one(phases);
    law_normalized_advances(phases);
    assert(normalized(phases).len() == phases.len());
}

/// Removing a task never leaves its phase behind empty.
pub proof fn law_rm_leaves_no_empty_phase(phases: Seq<PhaseView>, at: (int, int))
    requires
        0 <= at.0 < phases.len(),
        0 <= at.1 < phases[at.0].tasks.len(),
        forall|p: int| 0 <= p < phases.len() ==> (#[trigger] phases[p]).tasks.len() > 0,
    ensures
        forall|p: int|
            0 <= p < without_task(phases, at).len() ==> (#[trigger] without_task(
                phases,
                at,
            )[p]).tasks.len() > 0,
{
    let w = without_task(phases, at);
    assert forall|p: int| 0 <= p < w.len() implies (#[trigger] w[p]).tasks.len() > 0 by {
        if phases[at.0].tasks.remove(at.1).len() == 0 {
            if p < at.0 {
                assert(w[p] == phases[p]);
            } else {
                assert(w[p] == phases[p + 1]);
            }
        } else if p != at.0 {
            assert(w[p] == phases[p]);
        }
    }
}

// ---------------------------------------------------------------------------
// The answer
// ---------------------------------------------------------------------------

/// The label of a status.
pub open spec fn status_label(s: TodoStatus) -> Seq<char> {
    match s {
        TodoStatus::Pending => "pending"@,
        TodoStatus::InProgress => "in_progress"@,
        TodoStatus::Completed => "completed"@,
        TodoStatus::Abandoned => "abandoned"@,
    }
}

/// A task as JSON.
pub open spec fn item_json(t: ItemView) -> JsonView {
    JsonView::Object(
        object_of(
            seq![
                ("content"@, JsonView::String(t.content)),
                ("status"@, JsonView::String(status_label(t.status))),
            ],
        ),
    )
}

/// A phase as JSON.
pub open spec fn phase_json(p: PhaseView) -> JsonView {
    JsonView::Object(
        object_of(
            seq![
                ("name"@, JsonView::String(p.name)),
                ("tasks"@, JsonView::Array(p.tasks.map_values(|t: ItemView| item_json(t)))),
            ],
        ),
    )
}

/// A list of phases as JSON.
pub open spec fn phases_json(v: Seq<PhaseView>) -> JsonView {
    JsonView::Array(v.map_values(|p: PhaseView| phase_json(p)))
}

/// A completion as JSON.
pub open spec fn completion_json(c: (Seq<char>, Seq<char>)) -> JsonView {
    JsonView::Object(
        object_of(
            seq![("phase"@, JsonView::String(c.0)), ("content"@, JsonView::String(c.1))],
        ),
    )
}

/// A list of completions as JSON.
pub open spec fn completions_json(v: Seq<(Seq<char>, Seq<char>)>) -> JsonView {
    JsonView::Array(v.map_values(|c: (Seq<char>, Seq<char>)| completion_json(c)))
}

/// What the tool answers: the phases, and the completions and errors where there are any.
pub open spec fn result_json(r: TodoResultView) -> JsonView {
    JsonView::Object(
        object_of(
            seq![("phases"@, phases_json(r.phases))] + maybe(
                "completedTasks"@,
                if r.completed_tasks.len() == 0 {
                    None
                } else {
                    Some(completions_json(r.completed_tasks))
                },
            ) + maybe(
                "errors"@,
                if r.errors.len() == 0 {
                    None
                } else {
                    Some(texts_json(r.errors))
                },
            ),
        ),
    )
}

fn describe_status(s: TodoStatus) -> (r: Json)
    ensures
        r@ == JsonView::String(status_label(s)),
{
    match s {
        TodoStatus::Pending => str_to_json("pending"),
        TodoStatus::InProgress => str_to_json("in_progress"),
        TodoStatus::Completed => str_to_json("completed"),
        TodoStatus::Abandoned => str_to_json("abandoned"),
    }
}

fn describe_item(t: &TodoItem) -> (r: Json)
    ensures
        r@ == item_json(t@),
{
    let mut pairs: Vec<(String, Json)> = Vec::new();
    pairs.push(entry("content", str_to_json(t.content.as_str())));
    pairs.push(entry("status", describe_status(t.status)));
    assert(members_view(pairs@) =~= seq![
        ("content"@, JsonView::String(t@.content)),
        ("status"@, JsonView::String(status_label(t@.status))),
    ]);
    build_object(pairs)
}

fn describe_phase(p: &TodoPhase) -> (r: Json)
    ensures
        r@ == phase_json(p@),
{
    let mut tasks: Vec<Json> = Vec::new();
    let n = p.tasks.len();
    let mut i: usize = 0;
    while i < n
        invariant
            i <= n,
            n == p.tasks@.len(),
            tasks@.len() == i,
            forall|k: int| 0 <= k < i ==> (#[trigger] tasks@[k])@ == item_json(p.tasks@[k]@),
        decreases n - i,
    {
        tasks.push(describe_item(&p.tasks[i]));
        i = i + 1;
    }
    proof {
        lemma_array_view(tasks);
        assert(items_view(tasks@) =~= p@.tasks.map_values(|t: ItemView| item_json(t)));
    }
    let mut pairs: Vec<(String, Json)> = Vec::new();
    pairs.push(entry("name", str_to_json(p.name.as_str())));
    pairs.push(entry("tasks", Json::Array(tasks)));
    assert(members_view(pairs@) =~= seq![
        ("name"@, JsonView::String(p@.name)),
        ("tasks"@, JsonView::Array(p@.tasks.map_values(|t: ItemView| item_json(t)))),
    ]);
    build_object(pairs)
}

fn describe_phases(v: &Vec<TodoPhase>) -> (r: Json)
    ensures
        r@ == phases_json(phases_view(v@)),
{
    let mut items: Vec<Json> = Vec::new();
    let n = v.len();
    let mut i: usize = 0;
    while i < n
        invariant
            i <= n,
            n == v@.len(),
            items@.len() == i,
            forall|k: int| 0 <= k < i ==> (#[trigger] items@[k])@ == phase_json(v@[k]@),
        decreases n - i,
    {
        items.push(describe_phase(&v[i]));
        i = i + 1;
    }
    proof {
        lemma_array_view(items);
        assert(items_view(items@) =~= phases_view(v@).map_values(|p: PhaseView| phase_json(p)));
    }
    Json::Array(items)
}

fn describe_completions(v: &Vec<TodoCompletion>) -> (r: Json)
    ensures
        r@ == completions_json(completions_view(v@)),
{
    let mut items: Vec<Json> = Vec::new();
    let n = v.len();
    let mut i: usize = 0;
    while i < n
        invariant
            i <= n,
            n == v@.len(),
            items@.len() == i,
            forall|k: int|
                0 <= k < i ==> (#[trigger] items@[k])@ == completion_json(
                    (v@[k].phase@, v@[k].content@),
                ),
        decreases n - i,
    {
        let mut pairs: Vec<(String, Json)> = Vec::new();
        pairs.push(entry("phase", str_to_json(v[i].phase.as_str())));
        pairs.push(entry("content", str_to_json(v[i].content.as_str())));
        assert(members_view(pairs@) =~= seq![
            ("phase"@, JsonView::String(v@[i as int].phase@)),
            ("content"@, JsonView::String(v@[i as int].content@)),
        ]);
        items.push(build_object(pairs));
        i = i + 1;
    }
    proof {
        lemma_array_view(items);
        assert(items_view(items@) =~= completions_view(v@).map_values(
            |c: (Seq<char>, Seq<char>)| completion_json(c),
        ));
    }
    Json::Array(items)
}

impl TodoResult {
    /// The answer as JSON.
    pub fn to_json(&self) -> (r: Json)
        ensures
            r@ == result_json(self@),
    {
        let completed = if self.completed_tasks.len() == 0 {
            None
        } else {
            Some(describe_completions(&self.completed_tasks))
        };
        let errors = if self.errors.len() == 0 {
            None
        } else {
            Some(texts_to_json(&self.errors))
        };
        let mut pairs: Vec<(String, Json)> = Vec::new();
        pairs.push(entry("phases", describe_phases(&self.phases)));
        assert(members_view(pairs@) =~= seq![("phases"@, phases_json(self@.phases))]);
        add_maybe(&mut pairs, "completedTasks", completed);
        add_maybe(&mut pairs, "errors", errors);
        build_object(pairs)
    }
}

proof fn lemma_item_reads_back(t: ItemView)
    requires
        t.content.len() > 0,
    ensures
        item_of(item_json(t)) == Some(t),
{
    let pairs = seq![
        ("content"@, JsonView::String(t.content)),
        ("status"@, JsonView::String(status_label(t.status))),
    ];
    reveal_strlit("content");
    reveal_strlit("status");
    assert("content"@ != "status"@) by {
        assert("content"@[0] == 'c');
        assert("status"@[0] == 's');
    }
    law_object_of(pairs, "content"@);
    law_object_of(pairs, "status"@);
    assert(pairs.drop_last() =~= seq![("content"@, JsonView::String(t.content))]);
    assert(last_value(pairs, "status"@) == Some(
        JsonView::String(status_label(t.status)),
    ));
    assert(last_value(pairs.drop_last(), "content"@) == Some(JsonView::String(t.content)));
    reveal_strlit("pending");
    reveal_strlit("in_progress");
    reveal_strlit("completed");
    reveal_strlit("abandoned");
    assert("pending"@[0] == 'p');
    assert("in_progress"@[0] == 'i');
    assert("completed"@[0] == 'c');
    assert("abandoned"@[0] == 'a');
}

proof fn lemma_all_kept<A, B>(v: Seq<A>, f: spec_fn(A) -> Option<B>, w: Seq<B>)
    requires
        v.len() == w.len(),
        forall|i: int| 0 <= i < v.len() ==> f(#[trigger] v[i]) == Some(w[i]),
    ensures
        v.filter_map(f) == w,
    decreases v.len(),
{
    reveal(Seq::filter_map);
    if v.len() > 0 {
        lemma_all_kept(v.drop_last(), f, w.drop_last());
        assert(f(v.last()) == Some(w.last()));
        assert(w =~= w.drop_last().push(w.last()));
    }
}

/// What the tool answers can be handed in again: the phases of an answer read as the phases
/// that they are, where every phase has a name and every task a content.
pub proof fn law_phases_read_back(input: JsonView, v: Seq<PhaseView>)
    requires
        field(input, "currentPhases"@) == Some(phases_json(v)),
        forall|i: int| 0 <= i < v.len() ==> (#[trigger] v[i]).name.len() > 0,
        forall|i: int, j: int|
            0 <= i < v.len() && 0 <= j < v[i].tasks.len() ==> (
            #[trigger] v[i].tasks[j]).content.len() > 0,
    ensures
        current_phases(input) == v,
{
    let items = v.map_values(|p: PhaseView| phase_json(p));
    assert forall|i: int| 0 <= i < items.len() implies phase_of(#[trigger] items[i]) == Some(
        v[i],
    ) by {
        let p = v[i];
        let tasks = p.tasks.map_values(|t: ItemView| item_json(t));
        let pairs = seq![("name"@, JsonView::String(p.name)), ("tasks"@, JsonView::Array(tasks))];
        reveal_strlit("name");
        reveal_strlit("tasks");
        assert("name"@.len() != "tasks"@.len());
        law_object_of(pairs, "name"@);
        law_object_of(pairs, "tasks"@);
        assert(pairs.drop_last() =~= seq![("name"@, JsonView::String(p.name))]);
        assert(last_value(pairs.drop_last(), "name"@) == Some(JsonView::String(p.name)));
        assert forall|j: int| 0 <= j < tasks.len() implies item_of(#[trigger] tasks[j]) == Some(
            p.tasks[j],
        ) by {
            assert(v[i].tasks[j].content.len() > 0);
            lemma_item_reads_back(p.tasks[j]);
        }
        lemma_all_kept(tasks, |j: JsonView| item_of(j), p.tasks);
    }
    lemma_all_kept(items, |j: JsonView| phase_of(j), v);
}

// ---------------------------------------------------------------------------
// All tasks in a row
// ---------------------------------------------------------------------------

/// All tasks in order, each with the name of its phase.
pub open spec fn all_tasks(phases: Seq<PhaseView>) -> Seq<(Seq<char>, ItemView)>
    decreases phases.len(),
{
    if phases.len() == 0 {
        Seq::empty()
    } else {
        all_tasks(phases.drop_last()) + phases.last().tasks.map_values(
            |t: ItemView| (phases.last().name, t),
        )
    }
}

/// The names of the phases.
pub open spec fn phase_names(phases: Seq<PhaseView>) -> Seq<Seq<char>> {
    phases.map_values(|p: PhaseView| p.name)
}

proof fn lemma_all_tasks_add(a: Seq<PhaseView>, b: Seq<PhaseView>)
    ensures
        all_tasks(a + b) == all_tasks(a) + all_tasks(b),
    decreases b.len(),
{
    if b.len() == 0 {
        assert(a + b =~= a);
        assert(all_tasks(a) + all_tasks(b) =~= all_tasks(a));
    } else {
        lemma_all_tasks_add(a, b.drop_last());
        assert((a + b).drop_last() =~= a + b.drop_last());
        assert((a + b).last() == b.last());
        assert(all_tasks(a + b) =~= all_tasks(a) + all_tasks(b));
    }
}

proof fn lemma_all_tasks_of_one(phase: PhaseView)
    ensures
        all_tasks(seq![phase]) == phase.tasks.map_values(|t: ItemView| (phase.name, t)),
{
    reveal_with_fuel(all_tasks, 2);
    assert(seq![phase].drop_last() =~= Seq::<PhaseView>::empty());
    assert(all_tasks(seq![phase]) =~= phase.tasks.map_values(|t: ItemView| (phase.name, t)));
}

/// The tasks in a row are those before a phase, those of the phase, those after it.
proof fn lemma_all_tasks_split(phases: Seq<PhaseView>, p: int)
    requires
        0 <= p < phases.len(),
    ensures
        all_tasks(phases) == all_tasks(phases.take(p)) + phases[p].tasks.map_values(
            |t: ItemView| (phases[p].name, t),
        ) + all_tasks(phases.skip(p + 1)),
{
    let phase = phases[p];
    lemma_all_tasks_of_one(phase);
    lemma_all_tasks_add(phases.take(p), seq![phase]);
    lemma_all_tasks_add(phases.take(p) + seq![phase], phases.skip(p + 1));
    assert(phases =~= phases.take(p) + seq![phase] + phases.skip(p + 1));
}

proof fn lemma_task_in_misses(tasks: Seq<ItemView>, content: Seq<char>)
    ensures
        match task_in(tasks, content) {
            None => forall|j: int|
                0 <= j < tasks.len() ==> (#[trigger] tasks[j]).content != content,
            Some(i) => 0 <= i < tasks.len() && tasks[i].content == content && forall|j: int|
                0 <= j < i ==> (#[trigger] tasks[j]).content != content,
        },
    decreases tasks.len(),
{
    if tasks.len() > 0 {
        lemma_task_in_misses(tasks.drop_last(), content);
        let d = tasks.drop_last();
        assert forall|j: int| 0 <= j < d.len() implies tasks[j] == d[j] by {}
    }
}

/// The task that is found is the first in the row with this content.
proof fn lemma_found_first(phases: Seq<PhaseView>, content: Seq<char>) -> (k: int)
    ensures
        match task_at(phases, content) {
            None => forall|j: int|
                0 <= j < all_tasks(phases).len() ==> (#[trigger] all_tasks(phases)[j]).1.content
                    != content,
            Some((p, i)) => {
                &&& 0 <= p < phases.len()
                &&& 0 <= i < phases[p].tasks.len()
                &&& k == all_tasks(phases.take(p)).len() + i
                &&& 0 <= k < all_tasks(phases).len()
                &&& all_tasks(phases)[k] == (phases[p].name, phases[p].tasks[i])
                &&& phases[p].tasks[i].content == content
                &&& forall|j: int|
                    0 <= j < k ==> (#[trigger] all_tasks(phases)[j]).1.content != content
            },
        },
    decreases phases.len(),
{
    if phases.len() == 0 {
        0
    } else {
        let d = phases.drop_last();
        let k0 = lemma_found_first(d, content);
        let n = phases.len() - 1;
        lemma_task_in_misses(phases.last().tasks, content);
        lemma_all_tasks_split(phases, n);
        assert(phases.take(n) =~= d);
        assert(phases.skip(n + 1) =~= Seq::<PhaseView>::empty());
        match task_at(d, content) {
            Some((p, i)) => {
                assert(d.take(p) =~= phases.take(p));
                k0
            },
            None => match task_in(phases.last().tasks, content) {
                Some(i) => all_tasks(d).len() + i,
                None => 0,
            },
        }
    }
}

/// Giving one phase other tasks changes just its stretch of the row.
proof fn lemma_row_update(phases: Seq<PhaseView>, p: int, tasks: Seq<ItemView>)
    requires
        0 <= p < phases.len(),
    ensures
        all_tasks(phases.update(p, PhaseView { name: phases[p].name, tasks })) == all_tasks(
            phases.take(p),
        ) + tasks.map_values(|t: ItemView| (phases[p].name, t)) + all_tasks(phases.skip(p + 1)),
{
    let u = phases.update(p, PhaseView { name: phases[p].name, tasks });
    lemma_all_tasks_split(u, p);
    assert(u.take(p) =~= phases.take(p));
    assert(u.skip(p + 1) =~= phases.skip(p + 1));
}

proof fn lemma_op_names_differ()
    ensures
        "init"@ != "start"@,
        "init"@ != "done"@,
        "init"@ != "rm"@,
        "init"@ != "drop"@,
        "init"@ != "append"@,
        "init"@ != "view"@,
        "start"@ != "done"@,
        "start"@ != "rm"@,
        "start"@ != "drop"@,
        "start"@ != "append"@,
        "start"@ != "view"@,
        "done"@ != "rm"@,
        "done"@ != "drop"@,
        "done"@ != "append"@,
        "done"@ != "view"@,
        "rm"@ != "drop"@,
        "rm"@ != "append"@,
        "rm"@ != "view"@,
        "drop"@ != "append"@,
        "drop"@ != "view"@,
        "append"@ != "view"@,
{
    reveal_strlit("init");
    reveal_strlit("start");
    reveal_strlit("done");
    reveal_strlit("rm");
    reveal_strlit("drop");
    reveal_strlit("append");
    reveal_strlit("view");
    assert("init"@.len() == 4 && "start"@.len() == 5 && "done"@.len() == 4 && "rm"@.len() == 2);
    assert("drop"@.len() == 4 && "append"@.len() == 6 && "view"@.len() == 4);
    assert("init"@[0] != "done"@[0]);
    assert("init"@[0] != "drop"@[0]);
    assert("init"@[0] != "view"@[0]);
    assert("done"@[1] != "drop"@[1]);
    assert("done"@[0] != "view"@[0]);
    assert("drop"@[0] != "view"@[0]);
}

/// Removing a task takes the first task with that content out of the row, and nothing else:
/// every other task is still there, with its content and status, in the same order and under
/// the same phase name. A phase goes only where this was its last task.
#[verifier::rlimit(50)]
pub proof fn law_rm_takes_one_task(phases: Seq<PhaseView>, op: JsonView, k: int)
    requires
        string_in(field(op, "op"@)) == Some("rm"@),
        0 <= k < all_tasks(phases).len(),
        string_in(field(op, "task"@)) == Some(all_tasks(phases)[k].1.content),
        forall|j: int|
            0 <= j < k ==> (#[trigger] all_tasks(phases)[j]).1.content != all_tasks(
                phases,
            )[k].1.content,
    ensures
        op_outcome(phases, op).error is None,
        all_tasks(op_outcome(phases, op).phases) == all_tasks(phases).remove(k),
        exists|p: int|
            0 <= p < phases.len() && (#[trigger] phases[p]).name == all_tasks(phases)[k].0
                && phases[p].tasks.contains(all_tasks(phases)[k].1) && (if phases[p].tasks.len()
                == 1 {
                op_outcome(phases, op).phases == phases.remove(p)
            } else {
                phase_names(op_outcome(phases, op).phases) == phase_names(phases)
            }),
{
    lemma_op_names_differ();
    let content = all_tasks(phases)[k].1.content;
    let f = lemma_found_first(phases, content);
    assert(task_at(phases, content) is Some);
    let (p, i) = task_at(phases, content)->0;
    assert(f == k) by {
        if f < k {
            assert(all_tasks(phases)[f].1.content != content);
        } else if k < f {
            assert(all_tasks(phases)[k].1.content != content);
        }
    }
    let o = op_outcome(phases, op).phases;
    let phase = phases[p];
    let rest = phase.tasks.remove(i);
    lemma_all_tasks_split(phases, p);
    if rest.len() == 0 {
        lemma_all_tasks_add(phases.take(p), phases.skip(p + 1));
        assert(phases.remove(p) =~= phases.take(p) + phases.skip(p + 1));
        assert(all_tasks(o) =~= all_tasks(phases).remove(k));
    } else {
        lemma_row_update(phases, p, rest);
        assert(all_tasks(o) =~= all_tasks(phases).remove(k));
        assert(phase_names(o) =~= phase_names(phases));
    }
    assert(phases[p].tasks[i] == all_tasks(phases)[k].1);
    assert(phases[p].tasks.contains(all_tasks(phases)[k].1));
}

/// Finishing or dropping a task changes the status of the first task with that content, to
/// completed or to abandoned, and nothing else.
pub proof fn law_done_and_drop(phases: Seq<PhaseView>, op: JsonView, k: int)
    requires
        string_in(field(op, "op"@)) == Some("done"@) || string_in(field(op, "op"@)) == Some(
            "drop"@,
        ),
        0 <= k < all_tasks(phases).len(),
        string_in(field(op, "task"@)) == Some(all_tasks(phases)[k].1.content),
        forall|j: int|
            0 <= j < k ==> (#[trigger] all_tasks(phases)[j]).1.content != all_tasks(
                phases,
            )[k].1.content,
    ensures
        op_outcome(phases, op).error is None,
        phase_names(op_outcome(phases, op).phases) == phase_names(phases),
        all_tasks(op_outcome(phases, op).phases) == all_tasks(phases).update(
            k,
            (
                all_tasks(phases)[k].0,
                ItemView {
                    content: all_tasks(phases)[k].1.content,
                    status: if string_in(field(op, "op"@)) == Some("done"@) {
                        TodoStatus::Completed
                    } else {
                        TodoStatus::Abandoned
                    },
                },
            ),
        ),
{
    lemma_op_names_differ();
    let content = all_tasks(phases)[k].1.content;
    let f = lemma_found_first(phases, content);
    assert(task_at(phases, content) is Some);
    let (p, i) = task_at(phases, content)->0;
    assert(f == k) by {
        if f < k {
            assert(all_tasks(phases)[f].1.content != content);
        } else if k < f {
            assert(all_tasks(phases)[k].1.content != content);
        }
    }
    let status = if string_in(field(op, "op"@)) == Some("done"@) {
        TodoStatus::Completed
    } else {
        TodoStatus::Abandoned
    };
    let o = op_outcome(phases, op).phases;
    assert(o == with_status(phases, (p, i), status));
    lemma_all_tasks_split(phases, p);
    lemma_row_update(phases, p, phases[p].tasks.update(i, ItemView { content, status }));
    assert(all_tasks(o) =~= all_tasks(phases).update(
        k,
        (all_tasks(phases)[k].0, ItemView { content, status }),
    ));
    assert(phase_names(o) =~= phase_names(phases));
}

proof fn lemma_all_tasks_halted(phases: Seq<PhaseView>)
    ensures
        all_tasks(all_halted(phases)) == all_tasks(phases).map_values(
            |t: (Seq<char>, ItemView)| (t.0, halted(t.1)),
        ),
    decreases phases.len(),
{
    if phases.len() > 0 {
        lemma_all_tasks_halted(phases.drop_last());
        assert(all_halted(phases).drop_last() =~= all_halted(phases.drop_last()));
    }
    assert(all_tasks(all_halted(phases)) =~= all_tasks(phases).map_values(
        |t: (Seq<char>, ItemView)| (t.0, halted(t.1)),
    ));
}

/// Starting a task puts the first task with that content in progress. Any other task that was
/// in progress is pending, and the rest stays as it was.
pub proof fn law_start_switches(phases: Seq<PhaseView>, op: JsonView, k: int)
    requires
        string_in(field(op, "op"@)) == Some("start"@),
        0 <= k < all_tasks(phases).len(),
        string_in(field(op, "task"@)) == Some(all_tasks(phases)[k].1.content),
        forall|j: int|
            0 <= j < k ==> (#[trigger] all_tasks(phases)[j]).1.content != all_tasks(
                phases,
            )[k].1.content,
    ensures
        op_outcome(phases, op).error is None,
        phase_names(op_outcome(phases, op).phases) == phase_names(phases),
        all_tasks(op_outcome(phases, op).phases).len() == all_tasks(phases).len(),
        forall|j: int|
            0 <= j < all_tasks(phases).len() ==> {
                let now = #[trigger] all_tasks(op_outcome(phases, op).phases)[j];
                let before = all_tasks(phases)[j];
                &&& now.0 == before.0
                &&& now.1.content == before.1.content
                &&& now.1.status == if j == k {
                    TodoStatus::InProgress
                } else if before.1.status == TodoStatus::InProgress {
                    TodoStatus::Pending
                } else {
                    before.1.status
                }
            },
{
    lemma_op_names_differ();
    let content = all_tasks(phases)[k].1.content;
    let f = lemma_found_first(phases, content);
    assert(task_at(phases, content) is Some);
    let (p, i) = task_at(phases, content)->0;
    assert(f == k) by {
        if f < k {
            assert(all_tasks(phases)[f].1.content != content);
        } else if k < f {
            assert(all_tasks(phases)[k].1.content != content);
        }
    }
    let h = all_halted(phases);
    let o = op_outcome(phases, op).phases;
    assert(o == with_status(h, (p, i), TodoStatus::InProgress));
    lemma_all_tasks_halted(phases);
    lemma_all_tasks_halted(phases.take(p));
    assert(h.take(p) =~= all_halted(phases.take(p)));
    lemma_all_tasks_split(h, p);
    let now = ItemView { content: h[p].tasks[i].content, status: TodoStatus::InProgress };
    lemma_row_update(h, p, h[p].tasks.update(i, now));
    assert(all_tasks(o) =~= all_tasks(h).update(k, (h[p].name, now)));
    assert(phase_names(o) =~= phase_names(phases));
}

/// An operation on a task that is not there, or on none, fails and changes nothing; so does
/// one without a name or with an unknown one. `view` succeeds and changes nothing.
pub proof fn law_what_changes_nothing(phases: Seq<PhaseView>, op: JsonView)
    ensures
        string_in(field(op, "op"@)) == Some("view"@) ==> op_outcome(phases, op).error is None
            && op_outcome(phases, op).phases == phases,
        string_in(field(op, "op"@)) is None ==> op_outcome(phases, op).error == Some(
            "missing op field"@,
        ) && op_outcome(phases, op).phases == phases,
        string_in(field(op, "op"@)) matches Some(name) ==> {
            let o = op_outcome(phases, op);
            &&& name == "start"@ || name == "done"@ || name == "rm"@ || name == "drop"@ ==> {
                &&& string_in(field(op, "task"@)) is None ==> o.phases == phases && o.error
                    == Some(name + ": task is required"@)
                &&& string_in(field(op, "task"@)) matches Some(task) ==> (o.error is Some <==> (
                forall|j: int|
                    0 <= j < all_tasks(phases).len() ==> (#[trigger] all_tasks(
                        phases,
                    )[j]).1.content != task))
                &&& o.error is Some ==> o.phases == phases
            }
            &&& !seq![
                "init"@,
                "start"@,
                "done"@,
                "rm"@,
                "drop"@,
                "append"@,
                "view"@,
            ].contains(name) ==> o.phases == phases && o.error is Some
        },
{
    lemma_op_names_differ();
    if let Some(name) = string_in(field(op, "op"@)) {
        let known = seq![
            "init"@,
            "start"@,
            "done"@,
            "rm"@,
            "drop"@,
            "append"@,
            "view"@,
        ];
        assert(known[0] == "init"@);
        assert(known[1] == "start"@);
        assert(known[2] == "done"@);
        assert(known[3] == "rm"@);
        assert(known[4] == "drop"@);
        assert(known[5] == "append"@);
        assert(known[6] == "view"@);
        if let Some(task) = string_in(field(op, "task"@)) {
            let k = lemma_found_first(phases, task);
        }
    }
}

proof fn lemma_new_tasks_good(items: Seq<JsonView>, label: Seq<char>, phase: Seq<char>)
    requires
        forall|i: int|
            0 <= i < items.len() ==> (#[trigger] items[i] matches JsonView::String(s) && s.len()
                > 0),
    ensures
        new_tasks(items, label, phase).1 is None,
        new_tasks(items, label, phase).0 == Seq::new(
            items.len(),
            |i: int| ItemView { content: items[i]->String_0, status: TodoStatus::Pending },
        ),
    decreases items.len(),
{
    if items.len() > 0 {
        lemma_new_tasks_good(items.drop_last(), label, phase);
        assert(items.last() == items[items.len() - 1]);
    }
    assert(new_tasks(items, label, phase).0 =~= Seq::new(
        items.len(),
        |i: int| ItemView { content: items[i]->String_0, status: TodoStatus::Pending },
    ));
}

proof fn lemma_new_tasks_bad(items: Seq<JsonView>, label: Seq<char>, phase: Seq<char>, i: int)
    requires
        0 <= i < items.len(),
        !(items[i] matches JsonView::String(s) && s.len() > 0),
    ensures
        new_tasks(items, label, phase).1 is Some,
    decreases items.len(),
{
    if i < items.len() - 1 {
        lemma_new_tasks_bad(items.drop_last(), label, phase, i);
    }
}

proof fn lemma_phase_at_first(phases: Seq<PhaseView>, name: Seq<char>)
    ensures
        match phase_at(phases, name) {
            None => forall|q: int| 0 <= q < phases.len() ==> (#[trigger] phases[q]).name != name,
            Some(p) => 0 <= p < phases.len() && phases[p].name == name && forall|q: int|
                0 <= q < p ==> (#[trigger] phases[q]).name != name,
        },
    decreases phases.len(),
{
    if phases.len() > 0 {
        let d = phases.drop_last();
        lemma_phase_at_first(d, name);
        assert forall|q: int| 0 <= q < d.len() implies phases[q] == d[q] by {}
    }
}

/// Appending to a phase that is there puts the new tasks, pending and in the order given,
/// behind those of the first phase with that name, and leaves the other phases alone.
pub proof fn law_append_to_a_phase(
    phases: Seq<PhaseView>,
    op: JsonView,
    p: int,
    items: Seq<JsonView>,
)
    requires
        string_in(field(op, "op"@)) == Some("append"@),
        0 <= p < phases.len(),
        string_in(field(op, "phase"@)) == Some(phases[p].name),
        forall|q: int| 0 <= q < p ==> (#[trigger] phases[q]).name != phases[p].name,
        array_in(field(op, "items"@)) == Some(items),
        items.len() > 0,
        forall|i: int|
            0 <= i < items.len() ==> (#[trigger] items[i] matches JsonView::String(s) && s.len()
                > 0),
    ensures
        ({
            let o = op_outcome(phases, op);
            &&& o.error is None
            &&& o.phases.len() == phases.len()
            &&& o.phases[p].name == phases[p].name
            &&& o.phases[p].tasks.len() == phases[p].tasks.len() + items.len()
            &&& o.phases[p].tasks.take(phases[p].tasks.len() as int) == phases[p].tasks
            &&& forall|i: int|
                0 <= i < items.len() ==> (#[trigger] items[i]) == JsonView::String(
                    o.phases[p].tasks[phases[p].tasks.len() + i].content,
                ) && o.phases[p].tasks[phases[p].tasks.len() + i].status == TodoStatus::Pending
            &&& forall|q: int|
                0 <= q < phases.len() && q != p ==> #[trigger] o.phases[q] == phases[q]
        }),
{
    lemma_op_names_differ();
    lemma_new_tasks_good(items, "append"@, phases[p].name);
    lemma_phase_at_first(phases, phases[p].name);
    assert(phase_at(phases, phases[p].name) == Some(p)) by {
        let f = phase_at(phases, phases[p].name)->0;
        if f < p {
            assert(phases[f].name != phases[p].name);
        } else if p < f {
            assert(phases[p].name != phases[p].name);
        }
    }
    let o = op_outcome(phases, op);
    assert(o.phases[p].tasks.take(phases[p].tasks.len() as int) =~= phases[p].tasks);
    assert forall|i: int| 0 <= i < items.len() implies (#[trigger] items[i]) == JsonView::String(
        o.phases[p].tasks[phases[p].tasks.len() + i].content,
    ) && o.phases[p].tasks[phases[p].tasks.len() + i].status == TodoStatus::Pending by {
        assert(o.phases[p].tasks[phases[p].tasks.len() + i] == new_tasks(
            items,
            "append"@,
            phases[p].name,
        ).0[i]);
    }
}

/// Appending to a phase that is not there adds that phase behind the others, with the new
/// tasks, pending and in the order given.
pub proof fn law_append_adds_a_phase(
    phases: Seq<PhaseView>,
    op: JsonView,
    name: Seq<char>,
    items: Seq<JsonView>,
)
    requires
        string_in(field(op, "op"@)) == Some("append"@),
        string_in(field(op, "phase"@)) == Some(name),
        forall|q: int| 0 <= q < phases.len() ==> (#[trigger] phases[q]).name != name,
        array_in(field(op, "items"@)) == Some(items),
        items.len() > 0,
        forall|i: int|
            0 <= i < items.len() ==> (#[trigger] items[i] matches JsonView::String(s) && s.len()
                > 0),
    ensures
        ({
            let o = op_outcome(phases, op);
            &&& o.error is None
            &&& o.phases.len() == phases.len() + 1
            &&& o.phases.drop_last() == phases
            &&& o.phases.last().name == name
            &&& o.phases.last().tasks.len() == items.len()
            &&& forall|i: int|
                0 <= i < items.len() ==> (#[trigger] items[i]) == JsonView::String(
                    o.phases.last().tasks[i].content,
                ) && o.phases.last().tasks[i].status == TodoStatus::Pending
        }),
{
    lemma_op_names_differ();
    lemma_new_tasks_good(items, "append"@, name);
    lemma_phase_at_first(phases, name);
    let o = op_outcome(phases, op);
    assert(o.phases.drop_last() =~= phases);
    assert forall|i: int| 0 <= i < items.len() implies (#[trigger] items[i]) == JsonView::String(
        o.phases.last().tasks[i].content,
    ) && o.phases.last().tasks[i].status == TodoStatus::Pending by {
        assert(o.phases.last().tasks[i] == new_tasks(items, "append"@, name).0[i]);
    }
}

/// Appending fails without a phase, without items, with none of them, or where one of them is
/// no text or an empty one.
pub proof fn law_bad_append_fails(phases: Seq<PhaseView>, op: JsonView)
    requires
        string_in(field(op, "op"@)) == Some("append"@),
        string_in(field(op, "phase"@)) is None || array_in(field(op, "items"@)) is None
            || array_in(field(op, "items"@))->0.len() == 0 || exists|i: int|
            0 <= i < array_in(field(op, "items"@))->0.len() && !(
            #[trigger] array_in(field(op, "items"@))->0[i] matches JsonView::String(s) && s.len()
                > 0),
    ensures
        op_outcome(phases, op).error is Some,
{
    lemma_op_names_differ();
    if string_in(field(op, "phase"@)) is Some && array_in(field(op, "items"@)) is Some {
        let items = array_in(field(op, "items"@))->0;
        if items.len() > 0 {
            let i = choose|i: int|
                0 <= i < items.len() && !(#[trigger] items[i] matches JsonView::String(s)
                    && s.len() > 0);
            lemma_new_tasks_bad(items, "append"@, string_in(field(op, "phase"@))->0, i);
        }
    }
}

/// An entry of `init` that can be read: a phase with a name and with texts as its items, none
/// of them empty.
pub open spec fn readable_entry(entry: JsonView) -> bool {
    &&& string_in(field(entry, "phase"@)) matches Some(name)
    &&& name.len() > 0
    &&& array_in(field(entry, "items"@)) matches Some(items)
    &&& items.len() > 0
    &&& forall|i: int|
        0 <= i < items.len() ==> (#[trigger] items[i] matches JsonView::String(s) && s.len() > 0)
}

proof fn lemma_init_phase(entry: JsonView)
    ensures
        init_phase(entry) is Ok <==> readable_entry(entry),
        readable_entry(entry) ==> {
            let items = array_in(field(entry, "items"@))->0;
            let phase = init_phase(entry)->Ok_0;
            &&& phase.name == string_in(field(entry, "phase"@))->0
            &&& phase.tasks.len() == items.len()
            &&& forall|i: int|
                0 <= i < items.len() ==> (#[trigger] items[i]) == JsonView::String(
                    phase.tasks[i].content,
                ) && phase.tasks[i].status == TodoStatus::Pending
        },
{
    if string_in(field(entry, "phase"@)) is Some && array_in(field(entry, "items"@)) is Some {
        let items = array_in(field(entry, "items"@))->0;
        let name = string_in(field(entry, "phase"@))->0;
        if readable_entry(entry) {
            lemma_new_tasks_good(items, "init.list"@, name);
            let phase = init_phase(entry)->Ok_0;
            assert forall|i: int| 0 <= i < items.len() implies (#[trigger] items[i])
                == JsonView::String(phase.tasks[i].content) && phase.tasks[i].status
                == TodoStatus::Pending by {
                assert(phase.tasks[i] == new_tasks(items, "init.list"@, name).0[i]);
            }
        } else if name.len() > 0 && items.len() > 0 {
            let i = choose|i: int|
                0 <= i < items.len() && !(#[trigger] items[i] matches JsonView::String(s)
                    && s.len() > 0);
            lemma_new_tasks_bad(items, "init.list"@, name, i);
        }
    }
}

proof fn lemma_init_phases(list: Seq<JsonView>)
    ensures
        init_phases(list) is Ok <==> forall|e: int|
            0 <= e < list.len() ==> #[trigger] readable_entry(list[e]),
        init_phases(list) matches Ok(phases) ==> {
            &&& phases.len() == list.len()
            &&& forall|e: int|
                0 <= e < list.len() ==> init_phase(#[trigger] list[e]) == Ok::<
                    PhaseView,
                    Seq<char>,
                >(phases[e])
        },
    decreases list.len(),
{
    if list.len() > 0 {
        let d = list.drop_last();
        lemma_init_phases(d);
        lemma_init_phase(list.last());
        assert forall|e: int| 0 <= e < d.len() implies list[e] == d[e] by {}
        assert(list[list.len() - 1] == list.last());
        if init_phases(list) is Err {
            if init_phases(d) is Err {
                let e = choose|e: int| 0 <= e < d.len() && !#[trigger] readable_entry(d[e]);
                assert(!readable_entry(list[e]));
            } else {
                assert(!readable_entry(list[list.len() - 1]));
            }
        } else {
            assert(init_phases(d) is Ok);
            assert forall|e: int| 0 <= e < list.len() implies #[trigger] readable_entry(
                list[e],
            ) by {
                if e < d.len() {
                    assert(readable_entry(d[e]));
                }
            }
        }
    }
}

/// `init` replaces all phases by those of its list, one for each entry, with the entry's name
/// and its items as pending tasks. It does so exactly where there is a list and every entry
/// can be read; else it fails and changes nothing.
pub proof fn law_init_replaces(phases: Seq<PhaseView>, op: JsonView)
    requires
        string_in(field(op, "op"@)) == Some("init"@),
    ensures
        ({
            let o = op_outcome(phases, op);
            &&& o.error is Some ==> o.phases == phases
            &&& o.error is None <==> (array_in(field(op, "list"@)) matches Some(list)
                && forall|e: int|
                0 <= e < list.len() ==> #[trigger] readable_entry(list[e]))
            &&& o.error is None ==> {
                let list = array_in(field(op, "list"@))->0;
                &&& o.phases.len() == list.len()
                &&& forall|e: int|
                    0 <= e < list.len() ==> {
                        let items = array_in(field(#[trigger] list[e], "items"@))->0;
                        &&& Some(o.phases[e].name) == string_in(field(list[e], "phase"@))
                        &&& o.phases[e].tasks.len() == items.len()
                        &&& forall|i: int|
                            0 <= i < items.len() ==> (#[trigger] items[i]) == JsonView::String(
                                o.phases[e].tasks[i].content,
                            ) && o.phases[e].tasks[i].status == TodoStatus::Pending
                    }
            }
        }),
{
    lemma_op_names_differ();
    if let Some(list) = array_in(field(op, "list"@)) {
        lemma_init_phases(list);
        let o = op_outcome(phases, op);
        if o.error is None {
            assert forall|e: int| 0 <= e < list.len() implies {
                let items = array_in(field(#[trigger] list[e], "items"@))->0;
                &&& Some(o.phases[e].name) == string_in(field(list[e], "phase"@))
                &&& o.phases[e].tasks.len() == items.len()
                &&& forall|i: int|
                    0 <= i < items.len() ==> (#[trigger] items[i]) == JsonView::String(
                        o.phases[e].tasks[i].content,
                    ) && o.phases[e].tasks[i].status == TodoStatus::Pending
            } by {
                assert(readable_entry(list[e]));
                lemma_init_phase(list[e]);
                assert(init_phase(list[e]) == Ok::<PhaseView, Seq<char>>(o.phases[e]));
            }
        }
    }
}

/// The task at (q, j) stands before the one at (p, i).
pub open spec fn stands_before(q: int, j: int, p: int, i: int) -> bool {
    q < p || (q == p && j < i)
}

/// Normalization leaves the first task that is in progress so and sets the others back to
/// pending; where none is in progress, it starts the first pending task. It changes no other
/// status.
#[verifier::rlimit(50)]
pub proof fn law_normalized_picks_the_first(phases: Seq<PhaseView>, p: int, i: int)
    requires
        0 <= p < phases.len(),
        0 <= i < phases[p].tasks.len(),
    ensures
        ({
            let before = phases[p].tasks[i].status;
            let after = normalized(phases)[p].tasks[i].status;
            let busy_before = exists|q: int, j: int|
                in_progress_at(phases, q, j) && #[trigger] stands_before(q, j, p, i);
            let busy = exists|q: int, j: int| #[trigger] in_progress_at(phases, q, j);
            let waits_before = exists|q: int, j: int|
                0 <= q < phases.len() && 0 <= j < phases[q].tasks.len()
                    && phases[q].tasks[j].status == TodoStatus::Pending
                    && #[trigger] stands_before(q, j, p, i);
            &&& before == TodoStatus::InProgress && !busy_before ==> after
                == TodoStatus::InProgress
            &&& before == TodoStatus::InProgress && busy_before ==> after == TodoStatus::Pending
            &&& before == TodoStatus::Pending && busy ==> after == TodoStatus::Pending
            &&& before == TodoStatus::Pending && !busy && !waits_before ==> after
                == TodoStatus::InProgress
            &&& before == TodoStatus::Pending && !busy && waits_before ==> after
                == TodoStatus::Pending
            &&& before == TodoStatus::Completed ==> after == TodoStatus::Completed
            &&& before == TodoStatus::Abandoned ==> after == TodoStatus::Abandoned
        }),
{
    let kept = keep_first(phases);
    let len = phases.len() as int;
    let tasks = phases[p].tasks;
    let busy_before = exists|q: int, j: int|
        in_progress_at(phases, q, j) && #[trigger] stands_before(q, j, p, i);
    let seen = any_before(phases, p, TodoStatus::InProgress) || any_with(
        tasks.take(i),
        TodoStatus::InProgress,
    );
    if busy_before {
        let (q, j) = choose|q: int, j: int|
            in_progress_at(phases, q, j) && #[trigger] stands_before(q, j, p, i);
        if q < p {
            assert(any_with(phases[q].tasks, TodoStatus::InProgress));
            assert(any_before(phases, p, TodoStatus::InProgress));
        } else {
            assert(tasks.take(i)[j].status == TodoStatus::InProgress);
        }
        assert(seen);
    }
    if seen {
        if any_before(phases, p, TodoStatus::InProgress) {
            let q = choose|q: int|
                0 <= q < p && q < phases.len() && any_with(
                    (#[trigger] phases[q]).tasks,
                    TodoStatus::InProgress,
                );
            let j = choose|j: int|
                0 <= j < phases[q].tasks.len() && (#[trigger] phases[q].tasks[j]).status
                    == TodoStatus::InProgress;
            assert(in_progress_at(phases, q, j) && stands_before(q, j, p, i));
        } else {
            let j = choose|j: int|
                0 <= j < tasks.take(i).len() && (#[trigger] tasks.take(i)[j]).status
                    == TodoStatus::InProgress;
            assert(tasks[j].status == TodoStatus::InProgress);
            assert(in_progress_at(phases, p, j) && stands_before(p, j, p, i));
        }
        assert(busy_before);
    }
    let busy = exists|q: int, j: int| #[trigger] in_progress_at(phases, q, j);
    let kept_busy = any_before(kept, len, TodoStatus::InProgress);
    if busy {
        let (q, j) = choose|q: int, j: int| #[trigger] in_progress_at(phases, q, j);
        assert(any_with(phases[q].tasks, TodoStatus::InProgress));
        assert(any_before(phases, len, TodoStatus::InProgress));
        let fp = lemma_first_phase(phases, len, TodoStatus::InProgress);
        let fi = lemma_first_with(phases[fp].tasks, TodoStatus::InProgress);
        assert(kept[fp].tasks[fi].status == TodoStatus::InProgress);
        assert(any_with(kept[fp].tasks, TodoStatus::InProgress));
        assert(kept_busy);
    }
    if kept_busy {
        let q = choose|q: int|
            0 <= q < len && q < kept.len() && any_with(
                (#[trigger] kept[q]).tasks,
                TodoStatus::InProgress,
            );
        let j = choose|j: int|
            0 <= j < kept[q].tasks.len() && (#[trigger] kept[q].tasks[j]).status
                == TodoStatus::InProgress;
        assert(phases[q].tasks[j].status == TodoStatus::InProgress);
        assert(in_progress_at(phases, q, j));
        assert(busy);
    }
    if !busy {
        assert forall|q: int, j: int|
            0 <= q < phases.len() && 0 <= j < phases[q].tasks.len() implies #[trigger] kept[q].tasks[j]
            == phases[q].tasks[j] by {
            assert(!in_progress_at(phases, q, j));
        }
        let waits = any_before(kept, p, TodoStatus::Pending) || any_with(
            kept[p].tasks.take(i),
            TodoStatus::Pending,
        );
        let waits_before = exists|q: int, j: int|
            0 <= q < phases.len() && 0 <= j < phases[q].tasks.len()
                && phases[q].tasks[j].status == TodoStatus::Pending
                && #[trigger] stands_before(q, j, p, i);
        if waits_before {
            let (q, j) = choose|q: int, j: int|
                0 <= q < phases.len() && 0 <= j < phases[q].tasks.len()
                    && phases[q].tasks[j].status == TodoStatus::Pending
                    && #[trigger] stands_before(q, j, p, i);
            assert(kept[q].tasks[j].status == TodoStatus::Pending);
            if q < p {
                assert(any_with(kept[q].tasks, TodoStatus::Pending));
            } else {
                assert(kept[p].tasks.take(i)[j].status == TodoStatus::Pending);
            }
            assert(waits);
        }
        if waits {
            if any_before(kept, p, TodoStatus::Pending) {
                let q = choose|q: int|
                    0 <= q < p && q < kept.len() && any_with(
                        (#[trigger] kept[q]).tasks,
                        TodoStatus::Pending,
                    );
                let j = choose|j: int|
                    0 <= j < kept[q].tasks.len() && (#[trigger] kept[q].tasks[j]).status
                        == TodoStatus::Pending;
                assert(phases[q].tasks[j].status == TodoStatus::Pending);
                assert(stands_before(q, j, p, i));
            } else {
                let j = choose|j: int|
                    0 <= j < kept[p].tasks.take(i).len() && (#[trigger] kept[p].tasks.take(
                        i,
                    )[j]).status == TodoStatus::Pending;
                assert(kept[p].tasks[j].status == TodoStatus::Pending);
                assert(phases[p].tasks[j].status == TodoStatus::Pending);
                assert(stands_before(p, j, p, i));
            }
            assert(waits_before);
        }
    }
}

/// A batch runs its operations one behind the other: those of a batch in two parts are the
/// first part's, and on what that leaves the second part's, and the errors come in that order.
pub proof fn law_batch_in_parts(phases: Seq<PhaseView>, a: Seq<JsonView>, b: Seq<JsonView>)
    ensures
        batch(phases, a + b).0 == batch(batch(phases, a).0, b).0,
        batch(phases, a + b).1 == batch(phases, a).1 + batch(batch(phases, a).0, b).1,
    decreases b.len(),
{
    if b.len() == 0 {
        assert(a + b =~= a);
        assert(batch(phases, a).1 + batch(batch(phases, a).0, b).1 =~= batch(phases, a).1);
    } else {
        law_batch_in_parts(phases, a, b.drop_last());
        assert((a + b).drop_last() =~= a + b.drop_last());
        assert(batch(phases, a + b).1 =~= batch(phases, a).1 + batch(batch(phases, a).0, b).1);
    }
}

/// The answer to a single operation that is no `view`: where it fails, the phases that were
/// handed in and its error; else the normalized phases that it leads to, without an error.
pub proof fn law_single_operation(input: JsonView, op: JsonView)
    requires
        array_in(field(input, "ops"@)) == Some(seq![op]),
        string_in(field(op, "op"@)) != Some("view"@),
    ensures
        todo_outcome(input) is Ok,
        ({
            let t = todo_outcome(input)->Ok_0;
            let o = op_outcome(current_phases(input), op);
            &&& o.error matches Some(e) ==> t.errors == seq![e] && t.phases == current_phases(
                input,
            ) && t.completed_tasks.len() == 0
            &&& o.error is None ==> t.errors.len() == 0 && t.phases == normalized(o.phases)
        }),
{
    reveal_with_fuel(batch, 2);
    let ops = seq![op];
    assert(ops.drop_last() =~= Seq::<JsonView>::empty());
    assert(ops.last() == op);
    assert(!read_only(ops)) by {
        assert(ops[0] == op);
    }
    let (phases, errors) = batch(current_phases(input), ops);
    if let Some(e) = op_outcome(current_phases(input), op).error {
        assert(errors =~= seq![e]);
    }
}

proof fn lemma_status_in(tasks: Seq<ItemView>, content: Seq<char>)
    ensures
        status_in(tasks, content) is None <==> forall|i: int|
            0 <= i < tasks.len() ==> (#[trigger] tasks[i]).content != content,
        status_in(tasks, content) matches Some(s) ==> exists|i: int|
            0 <= i < tasks.len() && (#[trigger] tasks[i]).content == content && tasks[i].status
                == s,
    decreases tasks.len(),
{
    if tasks.len() > 0 {
        let d = tasks.drop_last();
        lemma_status_in(d, content);
        assert(tasks[tasks.len() - 1] == tasks.last());
        assert forall|i: int| 0 <= i < d.len() implies tasks[i] == d[i] by {}
        if tasks.last().content != content {
            if let Some(s) = status_in(d, content) {
                let i = choose|i: int|
                    0 <= i < d.len() && (#[trigger] d[i]).content == content && d[i].status == s;
                assert(tasks[i].content == content && tasks[i].status == s);
            } else {
                assert forall|i: int| 0 <= i < tasks.len() implies (#[trigger] tasks[i]).content
                    != content by {
                    if i < d.len() {
                        assert(d[i].content != content);
                    }
                }
            }
        }
    }
}

/// Some task in a phase with this name has this content and status.
pub open spec fn has_task(
    phases: Seq<PhaseView>,
    name: Seq<char>,
    content: Seq<char>,
    status: TodoStatus,
) -> bool {
    all_tasks(phases).contains((name, ItemView { content, status }))
}

proof fn lemma_status_at(phases: Seq<PhaseView>, name: Seq<char>, content: Seq<char>)
    ensures
        status_at(phases, name, content) is None ==> forall|s: TodoStatus|
            !#[trigger] has_task(phases, name, content, s),
        status_at(phases, name, content) matches Some(s) ==> has_task(phases, name, content, s),
    decreases phases.len(),
{
    if phases.len() > 0 {
        let d = phases.drop_last();
        let last = phases.last();
        lemma_status_at(d, name, content);
        lemma_status_in(last.tasks, content);
        let row = last.tasks.map_values(|t: ItemView| (last.name, t));
        assert(all_tasks(phases) == all_tasks(d) + row);
        if last.name == name && status_in(last.tasks, content) is Some {
            let s = status_in(last.tasks, content)->0;
            let i = choose|i: int|
                0 <= i < last.tasks.len() && (#[trigger] last.tasks[i]).content == content
                    && last.tasks[i].status == s;
            assert(all_tasks(phases)[all_tasks(d).len() + i] == (
                name,
                ItemView { content, status: s },
            ));
        } else {
            match status_at(d, name, content) {
                Some(s) => {
                    let i = choose|i: int|
                        0 <= i < all_tasks(d).len() && all_tasks(d)[i] == (
                            name,
                            ItemView { content, status: s },
                        );
                    assert(all_tasks(phases)[i] == all_tasks(d)[i]);
                },
                None => {
                    assert forall|s: TodoStatus| !#[trigger] has_task(phases, name, content, s) by {
                        let want = (name, ItemView { content, status: s });
                        if all_tasks(phases).contains(want) {
                            let i = choose|i: int|
                                0 <= i < all_tasks(phases).len() && all_tasks(phases)[i] == want;
                            if i < all_tasks(d).len() {
                                assert(all_tasks(d)[i] == want);
                                assert(has_task(d, name, content, s));
                            } else {
                                let j = i - all_tasks(d).len();
                                assert(row[j] == want);
                                assert(last.tasks[j].content == content);
                            }
                        }
                    }
                },
            }
        }
    }
}

proof fn lemma_completions(
    prev: Seq<PhaseView>,
    updated: Seq<PhaseView>,
    name: Seq<char>,
    content: Seq<char>,
)
    ensures
        completions(prev, updated).contains((name, content)) <==> has_task(
            updated,
            name,
            content,
            TodoStatus::Completed,
        ) && status_at(prev, name, content) != Some(TodoStatus::Completed),
    decreases updated.len(),
{
    let want = (name, content);
    let done = (name, ItemView { content, status: TodoStatus::Completed });
    if updated.len() > 0 {
        let d = updated.drop_last();
        let last = updated.last();
        lemma_completions(prev, d, name, content);
        let row = last.tasks.map_values(|t: ItemView| (last.name, t));
        let f = |t: ItemView| completion_of(prev, last.name, t);
        let mine = last.tasks.filter_map(f);
        law_picked(last.tasks, f, want);
        assert(completions(prev, updated) == completions(prev, d) + mine);
        assert(all_tasks(updated) == all_tasks(d) + row);
        if completions(prev, updated).contains(want) {
            let i = choose|i: int|
                0 <= i < completions(prev, updated).len() && completions(prev, updated)[i] == want;
            if i < completions(prev, d).len() {
                assert(completions(prev, d)[i] == want);
                let j = choose|j: int| 0 <= j < all_tasks(d).len() && all_tasks(d)[j] == done;
                assert(all_tasks(updated)[j] == done);
            } else {
                assert(mine[i - completions(prev, d).len()] == want);
                let j = choose|j: int|
                    0 <= j < last.tasks.len() && f(#[trigger] last.tasks[j]) == Some(want);
                assert(row[j] == done);
                assert(all_tasks(updated)[all_tasks(d).len() + j] == done);
            }
        }
        if all_tasks(updated).contains(done) && status_at(prev, name, content) != Some(
            TodoStatus::Completed,
        ) {
            let i = choose|i: int| 0 <= i < all_tasks(updated).len() && all_tasks(updated)[i] == done;
            if i < all_tasks(d).len() {
                assert(all_tasks(d)[i] == done);
                let j = choose|j: int|
                    0 <= j < completions(prev, d).len() && completions(prev, d)[j] == want;
                assert(completions(prev, updated)[j] == want);
            } else {
                let j = i - all_tasks(d).len();
                assert(row[j] == done);
                assert(f(last.tasks[j]) == Some(want));
                assert(mine.contains(want));
                let m = choose|m: int| 0 <= m < mine.len() && mine[m] == want;
                assert(completions(prev, updated)[completions(prev, d).len() + m] == want);
            }
        }
    }
}

/// What is told as completed is completed now, and every task that is completed now and was
/// not before is told. One that was completed before, and in no other status, is not.
pub proof fn law_completions(
    prev: Seq<PhaseView>,
    updated: Seq<PhaseView>,
    name: Seq<char>,
    content: Seq<char>,
)
    ensures
        ({
            let told = completions(prev, updated).contains((name, content));
            &&& told ==> has_task(updated, name, content, TodoStatus::Completed)
            &&& has_task(updated, name, content, TodoStatus::Completed) && !has_task(
                prev,
                name,
                content,
                TodoStatus::Completed,
            ) ==> told
            &&& has_task(prev, name, content, TodoStatus::Completed) && (forall|s: TodoStatus|
                s != TodoStatus::Completed ==> !#[trigger] has_task(prev, name, content, s))
                ==> !told
        }),
{
    lemma_completions(prev, updated, name, content);
    lemma_status_at(prev, name, content);
    if status_at(prev, name, content) is None {
        assert(!has_task(prev, name, content, TodoStatus::Completed));
    }
}

/// The names of the states of a task.
pub proof fn law_names_of_states()
    ensures
        status_label(TodoStatus::Pending) == "pending"@,
        status_label(TodoStatus::InProgress) == "in_progress"@,
        status_label(TodoStatus::Completed) == "completed"@,
        status_label(TodoStatus::Abandoned) == "abandoned"@,
{
}

/// A phase is told by its name and its tasks, in their order, each by its text and its state.
pub proof fn law_phase_is_told(p: PhaseView)
    ensures
        field(phase_json(p), "name"@) == Some(JsonView::String(p.name)),
        field(phase_json(p), "tasks"@) matches Some(JsonView::Array(told)) && {
            &&& told.len() == p.tasks.len()
            &&& forall|i: int|
                0 <= i < p.tasks.len() ==> {
                    let t = #[trigger] told[i];
                    &&& field(t, "content"@) == Some(JsonView::String(p.tasks[i].content))
                    &&& field(t, "status"@) == Some(
                        JsonView::String(status_label(p.tasks[i].status)),
                    )
                }
        },
{
    reveal_strlit("name");
    reveal_strlit("tasks");
    assert("name"@.len() != "tasks"@.len());
    let pairs = seq![
        ("name"@, JsonView::String(p.name)),
        ("tasks"@, JsonView::Array(p.tasks.map_values(|t: ItemView| item_json(t)))),
    ];
    law_object_holds(pairs, 0, "name"@);
    law_object_holds(pairs, 1, "tasks"@);
    let told = p.tasks.map_values(|t: ItemView| item_json(t));
    assert forall|i: int| 0 <= i < p.tasks.len() implies {
        let t = #[trigger] told[i];
        &&& field(t, "content"@) == Some(JsonView::String(p.tasks[i].content))
        &&& field(t, "status"@) == Some(JsonView::String(status_label(p.tasks[i].status)))
    } by {
        reveal_strlit("content");
        reveal_strlit("status");
        assert("content"@.len() != "status"@.len());
        let item = seq![
            ("content"@, JsonView::String(p.tasks[i].content)),
            ("status"@, JsonView::String(status_label(p.tasks[i].status))),
        ];
        law_object_holds(item, 0, "content"@);
        law_object_holds(item, 1, "status"@);
        assert(told[i] == item_json(p.tasks[i]));
    }
}

/// The answer tells every phase, what was completed where anything was, and the errors where there
/// are any.
pub proof fn law_list_is_told(r: TodoResultView)
    ensures
        field(result_json(r), "phases"@) matches Some(JsonView::Array(told)) && {
            &&& told.len() == r.phases.len()
            &&& forall|i: int| 0 <= i < told.len() ==> #[trigger] told[i] == phase_json(r.phases[i])
        },
        field(result_json(r), "completedTasks"@) is Some <==> r.completed_tasks.len() > 0,
        field(result_json(r), "completedTasks"@) matches Some(v) ==> (v matches JsonView::Array(
            told,
        ) && {
            &&& told.len() == r.completed_tasks.len()
            &&& forall|i: int|
                0 <= i < told.len() ==> {
                    let c = #[trigger] told[i];
                    &&& field(c, "phase"@) == Some(JsonView::String(r.completed_tasks[i].0))
                    &&& field(c, "content"@) == Some(JsonView::String(r.completed_tasks[i].1))
                }
        }),
        field(result_json(r), "errors"@) is Some <==> r.errors.len() > 0,
        field(result_json(r), "errors"@) matches Some(v) ==> (v matches JsonView::Array(told) && {
            &&& told.len() == r.errors.len()
            &&& forall|i: int|
                0 <= i < told.len() ==> #[trigger] told[i] == JsonView::String(r.errors[i])
        }),
{
    reveal_strlit("phases");
    reveal_strlit("completedTasks");
    reveal_strlit("errors");
    reveal_strlit("phase");
    reveal_strlit("content");
    assert("phases"@.len() == 6);
    assert("completedTasks"@.len() == 14);
    assert("errors"@.len() == 6);
    assert("phase"@.len() == 5);
    assert("content"@.len() == 7);
    assert("phases"@[0] != "errors"@[0]);
    let done = if r.completed_tasks.len() == 0 {
        None
    } else {
        Some(completions_json(r.completed_tasks))
    };
    let bad = if r.errors.len() == 0 {
        None
    } else {
        Some(texts_json(r.errors))
    };
    let pairs = seq![("phases"@, phases_json(r.phases))] + maybe("completedTasks"@, done) + maybe(
        "errors"@,
        bad,
    );
    law_object_holds(pairs, 0, "phases"@);
    law_object_holds(pairs, 1, "completedTasks"@);
    law_object_holds(pairs, pairs.len() - 1, "errors"@);
    let told = r.completed_tasks.map_values(|c: (Seq<char>, Seq<char>)| completion_json(c));
    assert forall|i: int| 0 <= i < told.len() implies {
        let c = #[trigger] told[i];
        &&& field(c, "phase"@) == Some(JsonView::String(r.completed_tasks[i].0))
        &&& field(c, "content"@) == Some(JsonView::String(r.completed_tasks[i].1))
    } by {
        let item = seq![
            ("phase"@, JsonView::String(r.completed_tasks[i].0)),
            ("content"@, JsonView::String(r.completed_tasks[i].1)),
        ];
        law_object_holds(item, 0, "phase"@);
        law_object_holds(item, 1, "content"@);
        assert(told[i] == completion_json(r.completed_tasks[i]));
    }
}

} // verus!
