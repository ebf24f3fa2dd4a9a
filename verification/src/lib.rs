//! A task manager that keeps named pages of tasks.
//!
//! The manager knows which page is current and states the rules of every
//! operation on pages and tasks. It reads and writes nothing itself: the
//! caller hands it what storage holds and stores what comes back.

pub mod cli;
pub mod error;
pub mod models;
pub mod order;
pub mod storage;
pub mod text;

use crate::error::{ComoError, ComoErrorView};
use crate::models::{lemma_position, task_views, PageData, PageView, Task};
use crate::order::{lemma_sort_by_keeps_values, lemma_sort_by_permutes, lemma_sort_by_sorted};
use crate::order::{sort_by, sort_vec, sorted_by, total, transitive};
use crate::storage::default_page_name;
use crate::text::{lemma_lex_le_total, lemma_lex_le_transitive, lex_le, str_eq, str_le, views};
use vstd::prelude::*;

verus! {

/// The task manager: it holds the name of the current page.
pub struct TaskManager {
    current_page: String,
}

impl View for TaskManager {
    type V = Seq<char>;

    /// The name of the current page.
    closed spec fn view(&self) -> Seq<char> {
        self.current_page@
    }
}

/// A page in a listing of pages: its name, and whether it is the current one.
pub type PageEntry = (Seq<char>, bool);

/// What an entry of a listing of pages holds, as a function.
pub open spec fn entry_view() -> spec_fn((String, bool)) -> PageEntry {
    |entry: (String, bool)| (entry.0@, entry.1)
}

/// What each entry of a listing of pages holds.
pub open spec fn entry_views(entries: Seq<(String, bool)>) -> Seq<PageEntry> {
    entries.map_values(entry_view())
}

/// The order of the entries of a listing: that of their names.
pub open spec fn by_entry_name() -> spec_fn(PageEntry, PageEntry) -> bool {
    |a: PageEntry, b: PageEntry| lex_le(a.0, b.0)
}

/// The pages of a listing: the stored ones, and the current one behind them
/// where it is not among them.
pub open spec fn with_current(pages: Seq<Seq<char>>, current: Seq<char>) -> Seq<Seq<char>> {
    if pages.contains(current) {
        pages
    } else {
        pages.push(current)
    }
}

/// Each page with the mark of the current one.
pub open spec fn marked(pages: Seq<Seq<char>>, current: Seq<char>) -> Seq<PageEntry> {
    pages.map_values(|page: Seq<char>| (page, page == current))
}

/// The listing of pages: the stored pages and the current one, each marked
/// as current or not, in the order of their names.
pub open spec fn page_listing(pages: Seq<Seq<char>>, current: Seq<char>) -> Seq<PageEntry> {
    sort_by(marked(with_current(pages, current), current), by_entry_name())
}

/// The order of the entries relates any two entries and carries over a
/// middle one.
pub proof fn lemma_by_entry_name_orders()
    ensures
        total(by_entry_name()),
        transitive(by_entry_name()),
{
    let le = by_entry_name();
    assert forall|a: PageEntry, b: PageEntry| #[trigger] le(a, b) || #[trigger] le(b, a) by {
        lemma_lex_le_total(a.0, b.0);
    }
    assert forall|a: PageEntry, b: PageEntry, c: PageEntry| #[trigger] le(a, b) && #[trigger] le(
        b,
        c,
    ) implies le(a, c) by {
        lemma_lex_le_transitive(a.0, b.0, c.0);
    }
}

/// A listing of pages holds the current page exactly once, whether it is
/// stored or not, marks it and no other page as current, holds beside it the
/// stored pages once each, and is in the order of the names.
pub proof fn lemma_page_listing(pages: Seq<Seq<char>>, current: Seq<char>)
    requires
        pages.no_duplicates(),
    ensures
        sorted_by(page_listing(pages, current), by_entry_name()),
        page_listing(pages, current).no_duplicates(),
        page_listing(pages, current).len() == with_current(pages, current).len(),
        forall|i: int|
            0 <= i < page_listing(pages, current).len() ==> {
                let entry = #[trigger] page_listing(pages, current)[i];
                &&& entry.1 == (entry.0 == current)
                &&& entry.0 == current || pages.contains(entry.0)
            },
        forall|page: Seq<char>|
            pages.contains(page) ==> page_listing(pages, current).contains((page, page == current)),
        exists|i: int|
            {
                &&& 0 <= i < page_listing(pages, current).len()
                &&& #[trigger] page_listing(pages, current)[i] == (current, true)
                &&& forall|j: int|
                    0 <= j < page_listing(pages, current).len() && j != i ==> (
                    #[trigger] page_listing(pages, current)[j]).0 != current
            },
{
    let all = with_current(pages, current);
    let entries = marked(all, current);
    let listing = page_listing(pages, current);
    lemma_by_entry_name_orders();
    lemma_sort_by_sorted(entries, by_entry_name());
    lemma_sort_by_permutes(entries, by_entry_name());
    lemma_sort_by_keeps_values(entries, by_entry_name());
    assert(all.no_duplicates());
    assert(entries.no_duplicates()) by {
        assert forall|i: int, j: int|
            0 <= i < entries.len() && 0 <= j < entries.len() && i != j implies entries[i]
            != entries[j] by {
            assert(entries[i].0 == all[i] && entries[j].0 == all[j]);
        }
    }
    assert forall|i: int| 0 <= i < listing.len() implies {
        let entry = #[trigger] listing[i];
        &&& entry.1 == (entry.0 == current)
        &&& entry.0 == current || pages.contains(entry.0)
    } by {
        assert(listing.contains(listing[i]));
        assert(entries.contains(listing[i]));
        let k = choose|k: int| 0 <= k < entries.len() && entries[k] == listing[i];
        assert(entries[k] == (all[k], all[k] == current));
        if k < pages.len() {
            assert(pages[k] == all[k]);
        }
    }
    assert forall|page: Seq<char>| pages.contains(page) implies listing.contains(
        (page, page == current),
    ) by {
        let k = choose|k: int| 0 <= k < pages.len() && pages[k] == page;
        assert(all[k] == page);
        assert(entries[k] == (page, page == current));
        assert(entries.contains((page, page == current)));
    }
    assert(all.contains(current)) by {
        if !pages.contains(current) {
            assert(all[pages.len() as int] == current);
        }
    }
    let c = choose|c: int| 0 <= c < all.len() && all[c] == current;
    assert(entries[c] == (current, true));
    assert(entries.contains((current, true)));
    assert(listing.contains((current, true)));
    let i = choose|i: int| 0 <= i < listing.len() && listing[i] == (current, true);
    assert forall|j: int| 0 <= j < listing.len() && j != i implies (#[trigger] listing[j]).0
        != current by {
        if listing[j].0 == current {
            assert(listing[j].1 == (listing[j].0 == current));
            assert(listing[j] == listing[i]);
        }
    }
}

/// Whether the entry `a` is not behind the entry `b` by name.
fn entry_le(a: &(String, bool), b: &(String, bool)) -> (le: bool)
    ensures
        le == lex_le(a.0@, b.0@),
{
    str_le(a.0.as_str(), b.0.as_str())
}

impl TaskManager {
    /// The manager as it starts: on the page that was current last, as far
    /// as that could be loaded, and else on the default page.
    pub fn new(loaded: Option<String>) -> (manager: TaskManager)
        ensures
            manager@ == match loaded {
                Some(page_name) => page_name@,
                None => default_page_name(),
            },
    {
        let current_page = match loaded {
            Some(page_name) => page_name,
            None => "default".to_string(),
        };
        TaskManager { current_page }
    }

    /// The name of the current page.
    pub fn get_current_page(&self) -> (page_name: &str)
        ensures
            page_name@ == self@,
    {
        self.current_page.as_str()
    }

    /// Makes `page_name` the current page, whether such a page is stored or
    /// not. The caller stores the new name as the current one.
    pub fn switch_page(&mut self, page_name: &str)
        ensures
            final(self)@ == page_name@,
    {
        self.current_page = String::from_str(page_name);
    }

    /// The tasks of the current page, in the order they were added.
    ///
    /// `page` is what storage holds of the current page.
    pub fn list_tasks(&self, page: PageData) -> (tasks: Vec<Task>)
        ensures
            tasks == page.tasks,
            task_views(tasks@) == page@.tasks,
    {
        page.tasks
    }

    /// Adds a task to the current page and returns its identifier. The
    /// caller stores the page.
    ///
    /// `page` is what storage holds of the current page.
    pub fn add_task(&self, page: &mut PageData, title: String) -> (id: u32)
        requires
            old(page).last_id < u32::MAX,
        ensures
            id as nat == old(page)@.next_id(),
            final(page)@ == old(page)@.add(title@),
            old(page)@.wf() ==> final(page)@.wf(),
    {
        page.add_task(title)
    }

    /// Gives the task `id` of the current page a new title. Where the page
    /// has no such task this fails and the page is left as it is; otherwise
    /// the caller stores the page.
    ///
    /// `page` is what storage holds of the current page.
    pub fn edit_task(&self, page: &mut PageData, id: u32, new_title: String) -> (result: Result<
        (),
        ComoError,
    >)
        ensures
            match result {
                Ok(_) => old(page)@.contains(id as nat),
                Err(error) => {
                    &&& !old(page)@.contains(id as nat)
                    &&& error@ == (ComoErrorView::TaskNotFound { id: id as nat })
                    &&& *final(page) == *old(page)
                },
            },
            final(page)@ == old(page)@.retitle(id as nat, new_title@),
            old(page)@.wf() ==> final(page)@.wf(),
    {
        proof {
            lemma_position(page@, id as nat);
        }
        match page.find_task_by_id_mut(id) {
            Some(task) => {
                task.title = new_title;
            },
            None => {
                return Err(ComoError::TaskNotFound { id });
            },
        }
        assert(page@.tasks =~= old(page)@.retitle(id as nat, new_title@).tasks);
        Ok(())
    }

    /// Removes the task `id` from the current page. Where the page has no
    /// such task this fails and the page is left as it is; otherwise the
    /// caller stores the page.
    ///
    /// `page` is what storage holds of the current page.
    pub fn delete_task(&self, page: &mut PageData, id: u32) -> (result: Result<(), ComoError>)
        ensures
            match result {
                Ok(_) => old(page)@.contains(id as nat),
                Err(error) => {
                    &&& !old(page)@.contains(id as nat)
                    &&& error@ == (ComoErrorView::TaskNotFound { id: id as nat })
                    &&& *final(page) == *old(page)
                },
            },
            final(page)@ == old(page)@.remove(id as nat),
            old(page)@.wf() ==> final(page)@.wf(),
    {
        if page.remove_task(id) {
            Ok(())
        } else {
            Err(ComoError::TaskNotFound { id })
        }
    }

    /// Flips the completion flag of the task `id` of the current page and
    /// returns the new flag. Where the page has no such task this fails and
    /// the page is left as it is; otherwise the caller stores the page.
    ///
    /// `page` is what storage holds of the current page.
    pub fn toggle_task(&self, page: &mut PageData, id: u32) -> (result: Result<bool, ComoError>)
        ensures
            match result {
                Ok(completed) => {
                    &&& old(page)@.position(id as nat) matches Some(i)
                    &&& completed == !old(page)@.tasks[i].completed
                },
                Err(error) => {
                    &&& !old(page)@.contains(id as nat)
                    &&& error@ == (ComoErrorView::TaskNotFound { id: id as nat })
                    &&& *final(page) == *old(page)
                },
            },
            final(page)@ == old(page)@.toggle(id as nat),
            old(page)@.wf() ==> final(page)@.wf(),
    {
        proof {
            lemma_position(page@, id as nat);
        }
        let completed = match page.find_task_by_id_mut(id) {
            Some(task) => {
                task.completed = !task.completed;
                task.completed
            },
            None => {
                return Err(ComoError::TaskNotFound { id });
            },
        };
        assert(page@.tasks =~= old(page)@.toggle(id as nat).tasks);
        Ok(completed)
    }

    /// The pages, each with the mark of the current one, in the order of
    /// their names. The current page is listed whether it is stored or not.
    ///
    /// `pages` are the names of the pages that storage holds.
    pub fn list_pages(&self, pages: Vec<String>) -> (listing: Vec<(String, bool)>)
        ensures
            entry_views(listing@) == page_listing(views(pages@), self@),
            sorted_by(entry_views(listing@), by_entry_name()),
            entry_views(listing@).to_multiset() == marked(
                with_current(views(pages@), self@),
                self@,
            ).to_multiset(),
    {
        let ghost all = pages@;
        let ghost current = self@;
        let mut listing: Vec<(String, bool)> = Vec::new();
        let mut found = false;
        assert(entry_views(listing@) == marked(views(all.take(0)), current));
        for page in it: pages
            invariant
                it.seq() == all,
                current == self@,
                entry_views(listing@) == marked(views(all.take(it.index() as int)), current),
                found == views(all.take(it.index() as int)).contains(current),
        {
            let is_current = page == self.current_page;
            proof {
                let before = views(all.take(it.index() as int));
                let upto = views(all.take(it.index() + 1));
                assert(upto == before.push(page@));
                assert(marked(upto, current) == marked(before, current).push((page@, is_current)));
                if is_current {
                    assert(upto[it.index() as int] == current);
                } else if upto.contains(current) {
                    let k = choose|k: int| 0 <= k < upto.len() && upto[k] == current;
                    assert(before[k] == current);
                }
                if before.contains(current) {
                    let k = choose|k: int| 0 <= k < before.len() && before[k] == current;
                    assert(upto[k] == current);
                }
                assert(upto.contains(current) == (found || is_current));
            }
            if is_current {
                found = true;
            }
            listing.push((page, is_current));
            assert(entry_views(listing@) == marked(
                views(all.take(it.index() as int)),
                current,
            ).push((page@, is_current)));
        }
        assert(all.take(all.len() as int) == all);
        if !found {
            listing.push((self.current_page.clone(), true));
            assert(marked(views(all).push(current), current) == marked(views(all), current).push(
                (current, true),
            ));
            assert(entry_views(listing@) == marked(views(all), current).push((current, true)));
        }
        proof {
            let entries = marked(with_current(views(all), current), current);
            lemma_by_entry_name_orders();
            lemma_sort_by_sorted(entries, by_entry_name());
            lemma_sort_by_permutes(entries, by_entry_name());
        }
        sort_vec::<(String, bool), PageEntry, _>(
            listing,
            entry_le,
            Ghost(entry_view()),
            Ghost(by_entry_name()),
        )
    }

    /// Makes the page `page_name` and goes to it. Where such a page is
    /// stored already this fails and nothing changes; otherwise the caller
    /// stores the empty page that is returned under `page_name`, and then
    /// the new current page.
    ///
    /// `exists` is whether storage holds a page `page_name`.
    pub fn create_page(&mut self, page_name: &str, exists: bool) -> (result: Result<
        PageData,
        ComoError,
    >)
        ensures
            match result {
                Ok(page) => {
                    &&& !exists
                    &&& page@ == PageView::empty()
                    &&& final(self)@ == page_name@
                },
                Err(error) => {
                    &&& exists
                    &&& error@ == (ComoErrorView::PageAlreadyExists { name: page_name@ })
                    &&& final(self)@ == old(self)@
                },
            },
    {
        if exists {
            return Err(ComoError::PageAlreadyExists { name: String::from_str(page_name) });
        }
        let page = PageData::new();
        self.switch_page(page_name);
        Ok(page)
    }

    /// Whether the page `page_name` may be deleted: it has to be stored and
    /// must not be the current page. Only after `Ok` does the caller delete
    /// it. The current page stays what it is.
    ///
    /// `exists` is whether storage holds a page `page_name`.
    pub fn delete_page(&mut self, page_name: &str, exists: bool) -> (result: Result<(), ComoError>)
        ensures
            final(self)@ == old(self)@,
            page_name@ == old(self)@ ==> result is Err,
            match result {
                Ok(_) => exists && page_name@ != old(self)@,
                Err(error) => if !exists {
                    error@ == (ComoErrorView::PageNotFound { name: page_name@ })
                } else {
                    page_name@ == old(self)@ && error@ == ComoErrorView::CannotDeleteCurrentPage
                },
            },
    {
        if !exists {
            return Err(ComoError::PageNotFound { name: String::from_str(page_name) });
        }
        if str_eq(page_name, self.current_page.as_str()) {
            return Err(ComoError::CannotDeleteCurrentPage);
        }
        Ok(())
    }
}

impl Default for TaskManager {
    /// The manager on the default page.
    fn default() -> (manager: TaskManager)
        ensures
            manager@ == default_page_name(),
    {
        TaskManager::new(None)
    }
}

} // verus!
