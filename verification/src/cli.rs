//! What the commands mean: which page command a request comes to, and which
//! tasks a listing shows in which order.

use crate::models::{task_view, task_views, Task, TaskView};
use crate::order::{alike, lemma_sort_by_permutes, lemma_sort_by_sorted, lemma_sort_by_stable};
use crate::order::{sort_by, sort_vec, sorted_by, total, transitive};
use crate::text::opt_view;
use vstd::prelude::*;

verus! {

/// What can be asked about pages.
#[derive(Debug, Clone, PartialEq, Eq)]
pub enum PageCommands {
    /// Show the pages.
    List,
    /// Make a page and go to it.
    Create { name: String },
    /// Remove a page.
    Delete { name: String },
    /// Go to a page.
    Switch { name: String },
}

/// The mathematical value of a [`PageCommands`].
pub enum PageCommandsView {
    List,
    Create { name: Seq<char> },
    Delete { name: Seq<char> },
    Switch { name: Seq<char> },
}

impl View for PageCommands {
    type V = PageCommandsView;

    open spec fn view(&self) -> PageCommandsView {
        match self {
            PageCommands::List => PageCommandsView::List,
            PageCommands::Create { name } => PageCommandsView::Create { name: name@ },
            PageCommands::Delete { name } => PageCommandsView::Delete { name: name@ },
            PageCommands::Switch { name } => PageCommandsView::Switch { name: name@ },
        }
    }
}

/// The command that a page request comes to: the action where one is given;
/// without one, a switch to the page that is named, and a listing where none
/// is named.
pub open spec fn page_command(
    name: Option<Seq<char>>,
    action: Option<PageCommandsView>,
) -> PageCommandsView {
    match action {
        Some(action) => action,
        None => match name {
            Some(name) => PageCommandsView::Switch { name },
            None => PageCommandsView::List,
        },
    }
}

/// The command that a page request comes to. A page named beside an action
/// is passed over.
pub fn resolve_page_command(name: Option<String>, action: Option<PageCommands>) -> (command:
    PageCommands)
    ensures
        command@ == page_command(
            opt_view(name),
            match action {
                Some(action) => Some(action@),
                None => None,
            },
        ),
{
    match action {
        Some(action) => action,
        None => match name {
            Some(name) => PageCommands::Switch { name },
            None => PageCommands::List,
        },
    }
}

/// The order of tasks by identifier.
pub open spec fn by_id() -> spec_fn(TaskView, TaskView) -> bool {
    |a: TaskView, b: TaskView| a.id <= b.id
}

/// The order of tasks by status: the open ones before the completed ones,
/// and by identifier among each.
pub open spec fn by_status() -> spec_fn(TaskView, TaskView) -> bool {
    |a: TaskView, b: TaskView|
        if a.completed == b.completed {
            a.id <= b.id
        } else {
            !a.completed
        }
}

/// The order of a listing: by identifier where that is asked for, and by
/// status otherwise.
pub open spec fn task_order(sort_by_id: bool) -> spec_fn(TaskView, TaskView) -> bool {
    if sort_by_id {
        by_id()
    } else {
        by_status()
    }
}

/// The tasks that are not completed.
pub open spec fn unchecked() -> spec_fn(TaskView) -> bool {
    |task: TaskView| !task.completed
}

/// The tasks that a listing keeps: all of them, or the open ones only.
pub open spec fn kept_tasks(tasks: Seq<TaskView>, unchecked_only: bool) -> Seq<TaskView> {
    if unchecked_only {
        tasks.filter(unchecked())
    } else {
        tasks
    }
}

/// The tasks that a listing shows, in the order it shows them.
pub open spec fn shown_tasks(tasks: Seq<TaskView>, sort_by_id: bool, unchecked_only: bool) -> Seq<
    TaskView,
> {
    sort_by(kept_tasks(tasks, unchecked_only), task_order(sort_by_id))
}

/// Both orders of tasks relate any two tasks and carry over a middle one.
pub proof fn lemma_task_order_orders(sort_by_id: bool)
    ensures
        total(task_order(sort_by_id)),
        transitive(task_order(sort_by_id)),
{
    let le = task_order(sort_by_id);
    assert forall|a: TaskView, b: TaskView| #[trigger] le(a, b) || #[trigger] le(b, a) by {}
    assert forall|a: TaskView, b: TaskView, c: TaskView| #[trigger] le(a, b) && #[trigger] le(
        b,
        c,
    ) implies le(a, c) by {}
}

/// Whether `a` is not behind `b` by identifier.
fn id_le(a: &Task, b: &Task) -> (le: bool)
    ensures
        le == by_id()(a@, b@),
{
    a.id <= b.id
}

/// Whether `a` is not behind `b` by status.
fn status_le(a: &Task, b: &Task) -> (le: bool)
    ensures
        le == by_status()(a@, b@),
{
    if a.completed == b.completed {
        a.id <= b.id
    } else {
        !a.completed
    }
}

/// The tasks that are not completed, in their order.
fn keep_unchecked(tasks: Vec<Task>) -> (kept: Vec<Task>)
    ensures
        task_views(kept@) == task_views(tasks@).filter(unchecked()),
{
    let ghost all = tasks@;
    let mut kept: Vec<Task> = Vec::new();
    assert(task_views(all.take(0)) == Seq::<TaskView>::empty());
    assert(task_views(kept@) == task_views(all.take(0)).filter(unchecked())) by {
        reveal(Seq::filter);
    }
    for task in it: tasks
        invariant
            it.seq() == all,
            task_views(kept@) == task_views(all.take(it.index() as int)).filter(unchecked()),
    {
        proof {
            reveal(Seq::filter);
            let upto = task_views(all.take(it.index() + 1));
            assert(upto.drop_last() == task_views(all.take(it.index() as int)));
            assert(upto.last() == task@);
        }
        if !task.completed {
            kept.push(task);
            assert(task_views(kept@) == task_views(all.take(it.index() as int)).filter(
                unchecked(),
            ).push(task@));
        }
    }
    assert(all.take(all.len() as int) == all);
    kept
}

/// The tasks to show, in the order to show them.
///
/// With `unchecked_only` the completed tasks are left out. With `sort_by_id`
/// the tasks come by identifier; otherwise the open tasks come first and the
/// completed ones after them, by identifier among each. `sort_by_status` asks
/// for the order that is taken anyway. Tasks that the order does not tell
/// apart keep the order they came in.
pub fn list_tasks(
    tasks: Vec<Task>,
    sort_by_id: bool,
    sort_by_status: bool,
    unchecked_only: bool,
) -> (shown: Vec<Task>)
    ensures
        task_views(shown@) == shown_tasks(task_views(tasks@), sort_by_id, unchecked_only),
        sorted_by(task_views(shown@), task_order(sort_by_id)),
        task_views(shown@).to_multiset() == kept_tasks(
            task_views(tasks@),
            unchecked_only,
        ).to_multiset(),
        forall|task: TaskView|
            task_views(shown@).filter(#[trigger] alike(task, task_order(sort_by_id)))
                == kept_tasks(task_views(tasks@), unchecked_only).filter(
                alike(task, task_order(sort_by_id)),
            ),
{
    proof {
        let kept = kept_tasks(task_views(tasks@), unchecked_only);
        let order = task_order(sort_by_id);
        lemma_task_order_orders(sort_by_id);
        lemma_sort_by_sorted(kept, order);
        lemma_sort_by_permutes(kept, order);
        assert forall|task: TaskView|
            sort_by(kept, order).filter(#[trigger] alike(task, order)) == kept.filter(
                alike(task, order),
            ) by {
            lemma_sort_by_stable(kept, order, task);
        }
    }
    let kept = if unchecked_only {
        keep_unchecked(tasks)
    } else {
        tasks
    };
    if sort_by_id {
        sort_vec::<Task, TaskView, _>(kept, id_le, Ghost(task_view()), Ghost(by_id()))
    } else {
        sort_vec::<Task, TaskView, _>(kept, status_le, Ghost(task_view()), Ghost(by_status()))
    }
}

} // verus!
