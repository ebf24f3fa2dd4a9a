//! Tasks and pages: the data a page file holds, and the operations on it in memory.

use vstd::prelude::*;

verus! {

/// A titled unit of work, identified on its page by `id`.
#[derive(Debug, Clone)]
pub struct Task {
    pub id: u32,
    pub title: String,
    pub completed: bool,
}

/// The mathematical value of a [`Task`].
pub struct TaskView {
    pub id: nat,
    pub title: Seq<char>,
    pub completed: bool,
}

impl View for Task {
    type V = TaskView;

    open spec fn view(&self) -> TaskView {
        TaskView { id: self.id as nat, title: self.title@, completed: self.completed }
    }
}

impl TaskView {
    /// A task as it is when first added: not completed.
    pub open spec fn fresh(id: nat, title: Seq<char>) -> TaskView {
        TaskView { id, title, completed: false }
    }

    /// The same task under another title.
    pub open spec fn retitled(self, title: Seq<char>) -> TaskView {
        TaskView { id: self.id, title, completed: self.completed }
    }

    /// The same task with its completion flag flipped.
    pub open spec fn toggled(self) -> TaskView {
        TaskView { id: self.id, title: self.title, completed: !self.completed }
    }
}

impl Task {
    /// A new, not yet completed task.
    pub fn new(id: u32, title: String) -> (task: Task)
        ensures
            task@ == TaskView::fresh(id as nat, title@),
    {
        Task { id, title, completed: false }
    }
}

/// The content of one page: its tasks in the order they were added, and the
/// highest identifier the page has ever issued.
#[derive(Debug)]
pub struct PageData {
    pub last_id: u32,
    pub tasks: Vec<Task>,
}

/// The mathematical value of a [`PageData`].
pub struct PageView {
    pub last_id: nat,
    pub tasks: Seq<TaskView>,
}

impl View for PageData {
    type V = PageView;

    open spec fn view(&self) -> PageView {
        PageView { last_id: self.last_id as nat, tasks: task_views(self.tasks@) }
    }
}

/// What a task holds, as a function.
pub open spec fn task_view() -> spec_fn(Task) -> TaskView {
    |task: Task| task@
}

/// What each of the tasks holds.
pub open spec fn task_views(tasks: Seq<Task>) -> Seq<TaskView> {
    tasks.map_values(task_view())
}

impl PageView {
    /// The page nothing has been added to.
    pub open spec fn empty() -> PageView {
        PageView { last_id: 0, tasks: Seq::empty() }
    }

    /// The invariant of a page: every identifier on it has been issued by it,
    /// and no two tasks share an identifier.
    pub open spec fn wf(self) -> bool {
        &&& forall|i: int| 0 <= i < self.tasks.len() ==> (#[trigger] self.tasks[i]).id <= self.last_id
        &&& forall|i: int, j: int|
            0 <= i < j < self.tasks.len() ==> (#[trigger] self.tasks[i]).id != (
            #[trigger] self.tasks[j]).id
    }

    /// Some task on the page has the identifier `id`.
    pub open spec fn contains(self, id: nat) -> bool {
        exists|i: int| 0 <= i < self.tasks.len() && (#[trigger] self.tasks[i]).id == id
    }

    /// `i` is the place of the first task whose identifier is `id`.
    pub open spec fn first_at(self, id: nat, i: int) -> bool {
        &&& 0 <= i < self.tasks.len()
        &&& self.tasks[i].id == id
        &&& forall|j: int| 0 <= j < i ==> (#[trigger] self.tasks[j]).id != id
    }

    /// The place of the first task whose identifier is `id`, if there is one.
    pub open spec fn position(self, id: nat) -> Option<int> {
        if exists|i: int| self.first_at(id, i) {
            Some(choose|i: int| self.first_at(id, i))
        } else {
            None
        }
    }

    /// The identifier that the next added task gets.
    pub open spec fn next_id(self) -> nat {
        self.last_id + 1
    }

    /// The page after a task with this title has been added.
    pub open spec fn add(self, title: Seq<char>) -> PageView {
        PageView {
            last_id: self.next_id(),
            tasks: self.tasks.push(TaskView::fresh(self.next_id(), title)),
        }
    }

    /// The page after `titles` have been added one after the other.
    pub open spec fn add_all(self, titles: Seq<Seq<char>>) -> PageView
        decreases titles.len(),
    {
        if titles.len() == 0 {
            self
        } else {
            self.add_all(titles.drop_last()).add(titles.last())
        }
    }

    /// The page without the first task whose identifier is `id`; the page
    /// itself where it has none.
    pub open spec fn remove(self, id: nat) -> PageView {
        match self.position(id) {
            Some(i) => PageView { last_id: self.last_id, tasks: self.tasks.remove(i) },
            None => self,
        }
    }

    /// The page with the first task whose identifier is `id` under a new
    /// title; the page itself where it has none.
    pub open spec fn retitle(self, id: nat, title: Seq<char>) -> PageView {
        match self.position(id) {
            Some(i) => PageView {
                last_id: self.last_id,
                tasks: self.tasks.update(i, self.tasks[i].retitled(title)),
            },
            None => self,
        }
    }

    /// The page with the completion flag of the first task whose identifier
    /// is `id` flipped; the page itself where it has none.
    pub open spec fn toggle(self, id: nat) -> PageView {
        match self.position(id) {
            Some(i) => PageView {
                last_id: self.last_id,
                tasks: self.tasks.update(i, self.tasks[i].toggled()),
            },
            None => self,
        }
    }
}

/// `position` is `Some(i)` exactly where `i` is the first place that holds
/// `id`, and `None` exactly where no task holds it.
pub proof fn lemma_position(page: PageView, id: nat)
    ensures
        match page.position(id) {
            Some(i) => page.first_at(id, i),
            None => !page.contains(id),
        },
        page.position(id) is Some <==> page.contains(id),
        forall|i: int| page.first_at(id, i) ==> page.position(id) == Some(i),
{
    if page.contains(id) {
        let k = choose|k: int| 0 <= k < page.tasks.len() && (#[trigger] page.tasks[k]).id == id;
        lemma_first_exists(page, id, k);
    }
    if page.position(id) is Some {
        let i = page.position(id).unwrap();
        assert(page.first_at(id, i));
        assert(page.tasks[i].id == id);
    }
    assert forall|i: int| page.first_at(id, i) implies page.position(id) == Some(i) by {
        let c = choose|c: int| page.first_at(id, c);
        assert(page.first_at(id, c));
        if c < i {
            assert(page.tasks[c].id != id);
        } else if i < c {
            assert(page.tasks[i].id != id);
        }
    }
}

/// Where the task at `k` holds `id`, some place at or before `k` is the first
/// that does.
proof fn lemma_first_exists(page: PageView, id: nat, k: int)
    requires
        0 <= k < page.tasks.len(),
        page.tasks[k].id == id,
    ensures
        exists|i: int| page.first_at(id, i),
    decreases k,
{
    if forall|j: int| 0 <= j < k ==> (#[trigger] page.tasks[j]).id != id {
        assert(page.first_at(id, k));
    } else {
        let j = choose|j: int| 0 <= j < k && (#[trigger] page.tasks[j]).id == id;
        lemma_first_exists(page, id, j);
    }
}

/// One change to a page.
pub enum PageOp {
    Add { title: Seq<char> },
    Remove { id: nat },
    Retitle { id: nat, title: Seq<char> },
    Toggle { id: nat },
}

impl PageView {
    /// The page after one change.
    pub open spec fn apply(self, op: PageOp) -> PageView {
        match op {
            PageOp::Add { title } => self.add(title),
            PageOp::Remove { id } => self.remove(id),
            PageOp::Retitle { id, title } => self.retitle(id, title),
            PageOp::Toggle { id } => self.toggle(id),
        }
    }

    /// The page after a row of changes.
    pub open spec fn apply_all(self, ops: Seq<PageOp>) -> PageView
        decreases ops.len(),
    {
        if ops.len() == 0 {
            self
        } else {
            self.apply_all(ops.drop_last()).apply(ops.last())
        }
    }
}

/// Adding titles to an empty page gives the tasks the identifiers 1, 2, ...
/// in the order of the titles, and leaves the count of the titles as the last
/// identifier issued.
pub proof fn lemma_add_all_numbers_from_one(titles: Seq<Seq<char>>)
    ensures
        PageView::empty().add_all(titles).last_id == titles.len(),
        PageView::empty().add_all(titles).tasks.len() == titles.len(),
        forall|i: int|
            0 <= i < titles.len() ==> #[trigger] PageView::empty().add_all(titles).tasks[i]
                == TaskView::fresh((i + 1) as nat, titles[i]),
        PageView::empty().add_all(titles).wf(),
    decreases titles.len(),
{
    if titles.len() > 0 {
        let front = titles.drop_last();
        lemma_add_all_numbers_from_one(front);
        let before = PageView::empty().add_all(front);
        let after = PageView::empty().add_all(titles);
        assert(after == before.add(titles.last()));
        assert forall|i: int| 0 <= i < titles.len() implies #[trigger] after.tasks[i]
            == TaskView::fresh((i + 1) as nat, titles[i]) by {
            if i < front.len() {
                assert(after.tasks[i] == before.tasks[i]);
                assert(front[i] == titles[i]);
            }
        }
    }
}

/// Every change keeps the invariant of a page and never lowers the last
/// identifier issued. A task that is added gets an identifier above every
/// identifier the page has issued before.
pub proof fn lemma_apply_keeps_wf(page: PageView, op: PageOp)
    requires
        page.wf(),
    ensures
        page.apply(op).wf(),
        page.apply(op).last_id >= page.last_id,
        op is Add ==> page.apply(op).tasks.last().id == page.last_id + 1,
{
    let after = page.apply(op);
    match op {
        PageOp::Add { title } => {
            assert forall|i: int, j: int| 0 <= i < j < after.tasks.len() implies (
            #[trigger] after.tasks[i]).id != (#[trigger] after.tasks[j]).id by {
                assert(after.tasks[i] == page.tasks[i]);
            }
        },
        PageOp::Remove { id } => {
            lemma_position(page, id);
            if page.position(id) is Some {
                let p = page.position(id).unwrap();
                assert forall|i: int| 0 <= i < after.tasks.len() implies (
                #[trigger] after.tasks[i]).id <= after.last_id by {
                    if i < p {
                        assert(after.tasks[i] == page.tasks[i]);
                    } else {
                        assert(after.tasks[i] == page.tasks[i + 1]);
                    }
                }
                assert forall|i: int, j: int| 0 <= i < j < after.tasks.len() implies (
                #[trigger] after.tasks[i]).id != (#[trigger] after.tasks[j]).id by {
                    let a = if i < p { i } else { i + 1 };
                    let b = if j < p { j } else { j + 1 };
                    assert(after.tasks[i] == page.tasks[a]);
                    assert(after.tasks[j] == page.tasks[b]);
                }
            }
        },
        PageOp::Retitle { id, title } => {
            lemma_position(page, id);
            if page.position(id) is Some {
                assert forall|i: int| 0 <= i < after.tasks.len() implies (
                #[trigger] after.tasks[i]).id == page.tasks[i].id by {}
                assert forall|i: int, j: int| 0 <= i < j < after.tasks.len() implies (
                #[trigger] after.tasks[i]).id != (#[trigger] after.tasks[j]).id by {
                    assert(after.tasks[i].id == page.tasks[i].id);
                    assert(after.tasks[j].id == page.tasks[j].id);
                }
            }
        },
        PageOp::Toggle { id } => {
            lemma_position(page, id);
            if page.position(id) is Some {
                assert forall|i: int| 0 <= i < after.tasks.len() implies (
                #[trigger] after.tasks[i]).id == page.tasks[i].id by {}
                assert forall|i: int, j: int| 0 <= i < j < after.tasks.len() implies (
                #[trigger] after.tasks[i]).id != (#[trigger] after.tasks[j]).id by {
                    assert(after.tasks[i].id == page.tasks[i].id);
                    assert(after.tasks[j].id == page.tasks[j].id);
                }
            }
        },
    }
}

/// Whatever changes a page goes through, it keeps its invariant and the last
/// identifier issued never falls.
pub proof fn lemma_apply_all_keeps_wf(page: PageView, ops: Seq<PageOp>)
    requires
        page.wf(),
    ensures
        page.apply_all(ops).wf(),
        page.apply_all(ops).last_id >= page.last_id,
    decreases ops.len(),
{
    if ops.len() > 0 {
        lemma_apply_all_keeps_wf(page, ops.drop_last());
        lemma_apply_keeps_wf(page.apply_all(ops.drop_last()), ops.last());
    }
}

/// Identifiers are never used again: whatever changes a page goes through,
/// among them the removal of tasks, a task that is added afterwards gets an
/// identifier above every identifier that was on the page before.
pub proof fn lemma_ids_never_reused(page: PageView, ops: Seq<PageOp>, title: Seq<char>)
    requires
        page.wf(),
    ensures
        forall|i: int|
            0 <= i < page.tasks.len() ==> (#[trigger] page.tasks[i]).id < page.apply_all(
                ops,
            ).add(title).tasks.last().id,
        page.apply_all(ops).add(title).tasks.last().id == page.apply_all(ops).next_id(),
{
    lemma_apply_all_keeps_wf(page, ops);
}

/// A task that is added after one was removed does not get the identifier
/// of the removed one.
pub proof fn lemma_removed_id_not_reused(page: PageView, id: nat, title: Seq<char>)
    requires
        page.wf(),
        page.contains(id),
    ensures
        page.remove(id).next_id() > id,
        page.remove(id).add(title).tasks.last().id > id,
        !page.remove(id).contains(id),
        page.remove(id).add(title).wf(),
{
    lemma_position(page, id);
    lemma_apply_keeps_wf(page, PageOp::Remove { id });
    lemma_apply_keeps_wf(page.remove(id), PageOp::Add { title });
    let p = page.position(id).unwrap();
    let after = page.remove(id);
    if after.contains(id) {
        let k = choose|k: int| 0 <= k < after.tasks.len() && (#[trigger] after.tasks[k]).id == id;
        let orig = if k < p { k } else { k + 1 };
        assert(after.tasks[k] == page.tasks[orig]);
        assert(page.tasks[orig].id == page.tasks[p].id);
    }
}

impl PageData {
    /// An empty page.
    pub fn new() -> (page: PageData)
        ensures
            page@ == PageView::empty(),
            page@.wf(),
    {
        let page = PageData { last_id: 0, tasks: Vec::new() };
        assert(page@.tasks =~= Seq::empty());
        page
    }

    /// Issues the next identifier of the page.
    pub fn generate_next_id(&mut self) -> (id: u32)
        requires
            old(self).last_id < u32::MAX,
        ensures
            id as nat == old(self)@.next_id(),
            final(self).last_id == id,
            final(self).tasks == old(self).tasks,
            old(self)@.wf() ==> final(self)@.wf(),
    {
        self.last_id += 1;
        assert(self@.tasks == old(self)@.tasks);
        self.last_id
    }

    /// The place of the first task whose identifier is `id`.
    fn index_of(&self, id: u32) -> (index: Option<usize>)
        ensures
            match self@.position(id as nat) {
                Some(i) => index matches Some(found) && found == i && i < self.tasks@.len(),
                None => index is None,
            },
    {
        let mut i: usize = 0;
        while i < self.tasks.len()
            invariant
                i <= self.tasks.len(),
                forall|j: int| 0 <= j < i ==> (#[trigger] self@.tasks[j]).id != id as nat,
            decreases self.tasks.len() - i,
        {
            if self.tasks[i].id == id {
                proof {
                    assert(self@.tasks[i as int].id == id as nat);
                    assert(self@.first_at(id as nat, i as int));
                    lemma_position(self@, id as nat);
                }
                return Some(i);
            }
            assert(self@.tasks[i as int].id != id as nat);
            i += 1;
        }
        proof {
            lemma_position(self@, id as nat);
        }
        None
    }

    /// The first task whose identifier is `id`.
    pub fn find_task_by_id(&self, id: u32) -> (found: Option<&Task>)
        ensures
            match self@.position(id as nat) {
                Some(i) => found matches Some(task) && *task == self.tasks@[i],
                None => found is None,
            },
    {
        match self.index_of(id) {
            Some(i) => Some(&self.tasks[i]),
            None => None,
        }
    }

    /// The first task whose identifier is `id`, to be changed in place.
    pub fn find_task_by_id_mut(&mut self, id: u32) -> (found: Option<&mut Task>)
        ensures
            match old(self)@.position(id as nat) {
                Some(i) => {
                    &&& found matches Some(task)
                    &&& *task == old(self).tasks@[i]
                    &&& final(self).tasks@ == old(self).tasks@.update(i, *final(task))
                    &&& final(self).last_id == old(self).last_id
                },
                None => found is None && *final(self) == *old(self),
            },
    {
        match self.index_of(id) {
            Some(i) => Some(&mut self.tasks[i]),
            None => None,
        }
    }

    /// Adds a task with the next identifier of the page and returns that
    /// identifier.
    pub fn add_task(&mut self, title: String) -> (id: u32)
        requires
            old(self).last_id < u32::MAX,
        ensures
            id as nat == old(self)@.next_id(),
            final(self)@ == old(self)@.add(title@),
            old(self)@.wf() ==> final(self)@.wf(),
    {
        let id: u32 = self.generate_next_id();
        let task = Task::new(id, title);
        self.tasks.push(task);
        assert(self@.tasks =~= old(self)@.add(title@).tasks);
        id
    }

    /// Removes the first task whose identifier is `id`, keeping the others in
    /// their order. Returns whether there was one.
    pub fn remove_task(&mut self, id: u32) -> (removed: bool)
        ensures
            removed == old(self)@.contains(id as nat),
            final(self)@ == old(self)@.remove(id as nat),
            !removed ==> *final(self) == *old(self),
            old(self)@.wf() ==> final(self)@.wf(),
    {
        proof {
            lemma_position(self@, id as nat);
        }
        match self.index_of(id) {
            Some(i) => {
                self.tasks.remove(i);
                assert(self@.tasks =~= old(self)@.tasks.remove(i as int));
                true
            },
            None => false,
        }
    }
}

impl Default for PageData {
    /// An empty page.
    fn default() -> (page: PageData)
        ensures
            page@ == PageView::empty(),
    {
        PageData::new()
    }
}

} // verus!
