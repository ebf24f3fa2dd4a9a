//! Where the pages are kept: the data directory, the names of the files in
//! it, and what its content means.

use crate::error::{ComoError, ComoErrorView};
use crate::models::{PageData, PageView};
use crate::order::{sort_by, sort_vec, sorted_by};
use crate::order::{lemma_sort_by_keeps_values, lemma_sort_by_permutes, lemma_sort_by_sorted};
use crate::text::{by_name, ends_with, lemma_by_name_orders, opt_view, string_le, string_view};
use crate::text::{str_ends_with, trim, trimmed, views, white_space};
use std::path::PathBuf;
use vstd::prelude::*;

verus! {

/// A path of the file system, as std holds it. The library only carries such
/// a value from where it learns it to where it hands it out.
#[verifier::external_type_specification]
#[verifier::external_body]
pub struct ExPathBuf(PathBuf);

/// The kinds of system that keep application data in different places.
#[derive(Debug, Clone, Copy, PartialEq, Eq)]
pub enum Platform {
    Windows,
    MacOs,
    Other,
}

/// The directory a path starts from.
#[derive(Debug)]
pub enum PathRoot {
    /// A directory that the environment names.
    Given(String),
    /// The home directory of the user.
    Home(PathBuf),
}

/// A place in the file system: a root and the names that lead down from it.
#[derive(Debug)]
pub struct DataPath {
    pub root: PathRoot,
    pub segments: Vec<String>,
}

/// The mathematical value of a [`PathRoot`].
pub enum PathRootView {
    Given(Seq<char>),
    Home(PathBuf),
}

/// The mathematical value of a [`DataPath`].
pub struct DataPathView {
    pub root: PathRootView,
    pub segments: Seq<Seq<char>>,
}

impl View for PathRoot {
    type V = PathRootView;

    open spec fn view(&self) -> PathRootView {
        match self {
            PathRoot::Given(dir) => PathRootView::Given(dir@),
            PathRoot::Home(home) => PathRootView::Home(*home),
        }
    }
}

impl View for DataPath {
    type V = DataPathView;

    open spec fn view(&self) -> DataPathView {
        DataPathView { root: self.root@, segments: views(self.segments@) }
    }
}

impl DataPathView {
    /// The place called `name` directly under this one.
    pub open spec fn join(self, name: Seq<char>) -> DataPathView {
        DataPathView { root: self.root, segments: self.segments.push(name) }
    }
}

impl DataPath {
    /// The place called `name` directly under this one.
    pub fn join(self, name: String) -> (joined: DataPath)
        ensures
            joined@ == self@.join(name@),
    {
        let mut path = self;
        path.segments.push(name);
        assert(path@.segments =~= self@.join(name@).segments);
        path
    }
}

/// The name of the directory that holds the pages.
pub open spec fn app_dir_name() -> Seq<char> {
    "como"@
}

/// Whether the place of the data directory depends on the home directory.
pub open spec fn consults_home(platform: Platform, xdg_config_home: Option<Seq<char>>) -> bool {
    match platform {
        Platform::Windows => false,
        Platform::MacOs => true,
        Platform::Other => xdg_config_home is None,
    }
}

/// The data directory by the convention of the platform.
///
/// On Windows it lies under the application data directory, which the
/// environment has to name. On macOS it lies under
/// `Library/Application Support` in the home directory. Elsewhere it lies
/// under the configuration directory that the environment names, or else
/// under `.config` in the home directory. Where the convention leads to the
/// home directory and none is known, there is no data directory.
pub open spec fn data_dir(
    platform: Platform,
    app_data: Option<Seq<char>>,
    xdg_config_home: Option<Seq<char>>,
    home: Option<PathBuf>,
) -> Result<DataPathView, ComoErrorView> {
    match platform {
        Platform::Windows => match app_data {
            Some(dir) => Ok(
                DataPathView { root: PathRootView::Given(dir), segments: seq![app_dir_name()] },
            ),
            None => Err(ComoErrorView::AppDataUnknown),
        },
        Platform::MacOs => match home {
            Some(home) => Ok(
                DataPathView {
                    root: PathRootView::Home(home),
                    segments: seq!["Library"@, "Application Support"@, app_dir_name()],
                },
            ),
            None => Err(ComoErrorView::HomeDirUnknown),
        },
        Platform::Other => match xdg_config_home {
            Some(dir) => Ok(
                DataPathView { root: PathRootView::Given(dir), segments: seq![app_dir_name()] },
            ),
            None => match home {
                Some(home) => Ok(
                    DataPathView {
                        root: PathRootView::Home(home),
                        segments: seq![".config"@, app_dir_name()],
                    },
                ),
                None => Err(ComoErrorView::HomeDirUnknown),
            },
        },
    }
}

/// There is a data directory exactly where the root that the convention of
/// the platform leads to is known, and it is then called by the name of the
/// application.
pub proof fn lemma_data_dir(
    platform: Platform,
    app_data: Option<Seq<char>>,
    xdg_config_home: Option<Seq<char>>,
    home: Option<PathBuf>,
)
    ensures
        data_dir(platform, app_data, xdg_config_home, home) is Err <==> match platform {
            Platform::Windows => app_data is None,
            Platform::MacOs => home is None,
            Platform::Other => xdg_config_home is None && home is None,
        },
        data_dir(platform, app_data, xdg_config_home, home) matches Ok(dir) ==> dir.segments.len()
            > 0 && dir.segments.last() == app_dir_name(),
        !consults_home(platform, xdg_config_home) ==> data_dir(
            platform,
            app_data,
            xdg_config_home,
            home,
        ) == data_dir(platform, app_data, xdg_config_home, None),
{
}

/// What the resolution of a path came to.
pub open spec fn resolved(result: Result<DataPath, ComoError>) -> Result<
    DataPathView,
    ComoErrorView,
> {
    match result {
        Ok(path) => Ok(path@),
        Err(error) => Err(error@),
    }
}

/// `dirs::home_dir`: the home directory of the current user, where the
/// platform can tell it. Nothing is claimed of the answer: it depends on the
/// environment of the process.
#[verifier::external_body]
fn home_dir() -> (home: Option<PathBuf>) {
    dirs::home_dir()
}

/// The data directory, given the home directory as far as it is known.
/// This fails where the root that the convention of the platform leads to
/// is not known.
///
/// `app_data` and `xdg_config_home` are what the environment holds under
/// `APPDATA` and `XDG_CONFIG_HOME`.
pub fn como_data_dir_under(
    platform: Platform,
    app_data: Option<String>,
    xdg_config_home: Option<String>,
    home: Option<PathBuf>,
) -> (result: Result<DataPath, ComoError>)
    ensures
        resolved(result) == data_dir(platform, opt_view(app_data), opt_view(xdg_config_home), home),
{
    let path = match platform {
        Platform::Windows => match app_data {
            Some(dir) => DataPath { root: PathRoot::Given(dir), segments: Vec::new() },
            None => {
                return Err(ComoError::AppDataUnknown);
            },
        },
        Platform::MacOs => match home {
            Some(home) => {
                let library = DataPath { root: PathRoot::Home(home), segments: Vec::new() }.join(
                    "Library".to_string(),
                );
                library.join("Application Support".to_string())
            },
            None => {
                return Err(ComoError::HomeDirUnknown);
            },
        },
        Platform::Other => match xdg_config_home {
            Some(dir) => DataPath { root: PathRoot::Given(dir), segments: Vec::new() },
            None => match home {
                Some(home) => DataPath { root: PathRoot::Home(home), segments: Vec::new() }.join(
                    ".config".to_string(),
                ),
                None => {
                    return Err(ComoError::HomeDirUnknown);
                },
            },
        },
    };
    let dir = path.join("como".to_string());
    proof {
        let want = data_dir(platform, opt_view(app_data), opt_view(xdg_config_home), home);
        assert(want is Ok);
        assert(dir@.segments =~= want->Ok_0.segments);
    }
    Ok(dir)
}

/// The data directory by the convention of the platform, with the home
/// directory asked of the system where the convention needs it. This fails
/// where the root that the convention leads to is not known.
///
/// `app_data` and `xdg_config_home` are what the environment holds under
/// `APPDATA` and `XDG_CONFIG_HOME`.
pub fn get_como_data_dir(
    platform: Platform,
    app_data: Option<String>,
    xdg_config_home: Option<String>,
) -> (result: Result<DataPath, ComoError>)
    ensures
        exists|home: Option<PathBuf>|
            resolved(result) == #[trigger] data_dir(
                platform,
                opt_view(app_data),
                opt_view(xdg_config_home),
                home,
            ),
        !consults_home(platform, opt_view(xdg_config_home)) ==> resolved(result) == data_dir(
            platform,
            opt_view(app_data),
            opt_view(xdg_config_home),
            None,
        ),
{
    let needs_home = match platform {
        Platform::Windows => false,
        Platform::MacOs => true,
        Platform::Other => xdg_config_home.is_none(),
    };
    let home = if needs_home {
        home_dir()
    } else {
        None
    };
    como_data_dir_under(platform, app_data, xdg_config_home, home)
}

/// What the name of a page file ends with.
pub open spec fn page_suffix() -> Seq<char> {
    ".json"@
}

/// The name of the file that marks the current page.
pub open spec fn marker_file_name() -> Seq<char> {
    "current_page.txt"@
}

/// The name of the page that is current where nothing says otherwise.
pub open spec fn default_page_name() -> Seq<char> {
    "default"@
}

/// The name of the file that holds the page `page_name`: the name itself
/// where it ends with the page suffix, and else the name with the suffix
/// behind it.
pub open spec fn page_file_name(page_name: Seq<char>) -> Seq<char> {
    if ends_with(page_name, page_suffix()) {
        page_name
    } else {
        page_name + page_suffix()
    }
}

/// The page that a file of this name holds: what stands before the page
/// suffix. A name without the suffix names no page.
pub open spec fn page_name_of_file(file_name: Seq<char>) -> Option<Seq<char>> {
    if ends_with(file_name, page_suffix()) {
        Some(file_name.take(file_name.len() - page_suffix().len()))
    } else {
        None
    }
}

/// The name of the file that holds the page `page_name`.
pub fn file_name_of_page(page_name: &str) -> (file_name: String)
    ensures
        file_name@ == page_file_name(page_name@),
{
    let name = String::from_str(page_name);
    if str_ends_with(page_name, ".json") {
        name
    } else {
        name.concat(".json")
    }
}

/// The page that a file of this name holds, if it holds one.
pub fn page_of_file_name(file_name: &str) -> (page_name: Option<String>)
    ensures
        opt_view(page_name) == page_name_of_file(file_name@),
{
    let suffix = ".json";
    if str_ends_with(file_name, suffix) {
        let len: usize = file_name.unicode_len();
        let suffix_len: usize = suffix.unicode_len();
        Some(String::from_str(file_name.substring_char(0, len - suffix_len)))
    } else {
        None
    }
}

/// The file of the page `page_name` in the data directory.
pub fn get_page_path(data_dir: DataPath, page_name: &str) -> (path: DataPath)
    ensures
        path@ == data_dir@.join(page_file_name(page_name@)),
{
    data_dir.join(file_name_of_page(page_name))
}

/// The file in the data directory that marks the current page.
pub fn get_current_page_config_path(data_dir: DataPath) -> (path: DataPath)
    ensures
        path@ == data_dir@.join(marker_file_name()),
{
    data_dir.join("current_page.txt".to_string())
}

/// The page as it stands in storage: what its file holds, and an empty page
/// where it has no file yet.
pub fn load_page_data(stored: Option<PageData>) -> (page: PageData)
    ensures
        page@ == match stored {
            Some(data) => data@,
            None => PageView::empty(),
        },
        stored matches Some(data) ==> page == data,
{
    match stored {
        Some(data) => data,
        None => PageData::new(),
    }
}

/// The name of the current page as the marker file gives it: what the file
/// holds without the white space around it, and the default page where there
/// is no marker file.
pub open spec fn current_page_of(marker: Option<Seq<char>>) -> Seq<char> {
    match marker {
        Some(content) => trimmed(content),
        None => default_page_name(),
    }
}

/// A marker file that holds the name of a page gives that page back as the
/// current one, where the name has no white space at its ends. Other names
/// come back without that white space.
pub proof fn lemma_marker_gives_page_back(page_name: Seq<char>)
    requires
        page_name.len() > 0 ==> !white_space(page_name.first()) && !white_space(page_name.last()),
    ensures
        current_page_of(Some(page_name)) == page_name,
{
}

/// The name of the current page, from what the marker file holds if there
/// is one.
pub fn load_current_page(marker: Option<&str>) -> (page_name: String)
    ensures
        page_name@ == current_page_of(
            match marker {
                Some(content) => Some(content@),
                None => None,
            },
        ),
{
    match marker {
        Some(content) => trim(content),
        None => "default".to_string(),
    }
}

/// What the data directory holds under one name.
#[derive(Debug, Clone)]
pub struct DirEntry {
    pub name: String,
    pub is_file: bool,
}

/// The mathematical value of a [`DirEntry`].
pub struct DirEntryView {
    pub name: Seq<char>,
    pub is_file: bool,
}

impl View for DirEntry {
    type V = DirEntryView;

    open spec fn view(&self) -> DirEntryView {
        DirEntryView { name: self.name@, is_file: self.is_file }
    }
}

/// What each of the entries holds.
pub open spec fn entry_views(entries: Seq<DirEntry>) -> Seq<DirEntryView> {
    entries.map_values(|e: DirEntry| e@)
}

/// The page that an entry of the data directory holds: that of its name,
/// where the entry is a file.
pub open spec fn page_of_entry(entry: DirEntryView) -> Option<Seq<char>> {
    if entry.is_file {
        page_name_of_file(entry.name)
    } else {
        None
    }
}

/// The pages that the entries hold, in the order of the entries.
pub open spec fn stored_pages(entries: Seq<DirEntryView>) -> Seq<Seq<char>>
    decreases entries.len(),
{
    if entries.len() == 0 {
        Seq::empty()
    } else {
        match page_of_entry(entries.last()) {
            Some(page_name) => stored_pages(entries.drop_last()).push(page_name),
            None => stored_pages(entries.drop_last()),
        }
    }
}

/// No page is kept in the file that marks the current page: whatever a page
/// is called, its file has another name.
pub proof fn lemma_page_file_is_not_marker(page_name: Seq<char>)
    ensures
        page_file_name(page_name) != marker_file_name(),
        ends_with(page_file_name(page_name), page_suffix()),
{
    reveal_strlit(".json");
    reveal_strlit("current_page.txt");
    let file = page_file_name(page_name);
    let suffix = page_suffix();
    if !ends_with(page_name, suffix) {
        assert(file.skip(file.len() - suffix.len()) =~= suffix);
    }
    assert(file[file.len() - 4] == file.skip(file.len() - suffix.len())[1]);
    assert(file[file.len() - 4] == 'j');
    assert(marker_file_name()[marker_file_name().len() - 4] == '.');
}

/// A page file holds the page it was named for: the file of a page whose
/// name does not end with the page suffix holds a page of that name.
pub proof fn lemma_page_file_holds_page(page_name: Seq<char>)
    requires
        !ends_with(page_name, page_suffix()),
    ensures
        page_name_of_file(page_file_name(page_name)) == Some(page_name),
{
    let file = page_file_name(page_name);
    let suffix = page_suffix();
    assert(file.skip(file.len() - suffix.len()) =~= suffix);
    assert(file.take(file.len() - suffix.len()) =~= page_name);
}

/// A file holds the page of one name only, and a page is held by the file of
/// one name only: the name of the page with the page suffix behind it.
pub proof fn lemma_page_name_of_file(file_name: Seq<char>)
    ensures
        page_name_of_file(file_name) matches Some(page_name) ==> file_name == page_name
            + page_suffix(),
{
    let suffix = page_suffix();
    if page_name_of_file(file_name) is Some {
        let cut = file_name.len() - suffix.len();
        assert(file_name =~= file_name.take(cut) + file_name.skip(cut));
    }
}

/// Entries of different names hold different pages, so that no page is
/// listed twice.
pub proof fn lemma_stored_pages_distinct(entries: Seq<DirEntryView>)
    requires
        forall|i: int, j: int|
            0 <= i < j < entries.len() ==> (#[trigger] entries[i]).name != (
            #[trigger] entries[j]).name,
    ensures
        stored_pages(entries).no_duplicates(),
        sort_by(stored_pages(entries), by_name()).no_duplicates(),
        forall|page_name: Seq<char>|
            stored_pages(entries).contains(page_name) <==> exists|i: int|
                0 <= i < entries.len() && page_of_entry(#[trigger] entries[i]) == Some(page_name),
    decreases entries.len(),
{
    let pages = stored_pages(entries);
    lemma_sort_by_keeps_values(pages, by_name());
    if entries.len() > 0 {
        let front = entries.drop_last();
        let before = stored_pages(front);
        assert forall|i: int, j: int| 0 <= i < j < front.len() implies (#[trigger] front[i]).name
            != (#[trigger] front[j]).name by {
            assert(front[i] == entries[i] && front[j] == entries[j]);
        }
        lemma_stored_pages_distinct(front);
        assert forall|page_name: Seq<char>| pages.contains(page_name) <==> exists|i: int|
            0 <= i < entries.len() && page_of_entry(#[trigger] entries[i]) == Some(
                page_name,
            ) by {
            if pages.contains(page_name) {
                let k = choose|k: int| 0 <= k < pages.len() && pages[k] == page_name;
                if k < before.len() {
                    assert(before[k] == page_name);
                    assert(before.contains(page_name));
                    let i = choose|i: int|
                        0 <= i < front.len() && page_of_entry(#[trigger] front[i]) == Some(
                            page_name,
                        );
                    assert(entries[i] == front[i]);
                } else {
                    assert(page_of_entry(entries[entries.len() - 1]) == Some(page_name));
                }
            }
            if exists|i: int|
                0 <= i < entries.len() && page_of_entry(#[trigger] entries[i]) == Some(page_name) {
                let i = choose|i: int|
                    0 <= i < entries.len() && page_of_entry(#[trigger] entries[i]) == Some(
                        page_name,
                    );
                if i < front.len() {
                    assert(front[i] == entries[i]);
                    assert(before.contains(page_name));
                    let k = choose|k: int| 0 <= k < before.len() && before[k] == page_name;
                    assert(pages[k] == page_name);
                } else {
                    assert(pages[pages.len() - 1] == page_name);
                }
            }
        }
        match page_of_entry(entries.last()) {
            Some(page_name) => {
                if before.contains(page_name) {
                    let i = choose|i: int|
                        0 <= i < front.len() && page_of_entry(#[trigger] front[i]) == Some(
                            page_name,
                        );
                    lemma_page_name_of_file(front[i].name);
                    lemma_page_name_of_file(entries.last().name);
                    assert(entries[i] == front[i]);
                    assert(entries[i].name != entries[entries.len() - 1].name);
                }
                assert forall|i: int, j: int|
                    0 <= i < pages.len() && 0 <= j < pages.len() && i != j implies pages[i]
                    != pages[j] by {
                    if i < before.len() && j < before.len() {
                        assert(pages[i] == before[i] && pages[j] == before[j]);
                    } else if i < before.len() {
                        assert(before[i] == pages[i]);
                        assert(before.contains(pages[i]));
                    } else {
                        assert(before[j] == pages[j]);
                        assert(before.contains(pages[j]));
                    }
                }
            },
            None => {},
        }
    } else {
        assert forall|page_name: Seq<char>| pages.contains(page_name) <==> exists|i: int|
            0 <= i < entries.len() && page_of_entry(#[trigger] entries[i]) == Some(
                page_name,
            ) by {}
    }
}

/// The pages that the data directory holds, in the order of their names.
///
/// `entries` is what the directory holds. Entries that are no files, and
/// files that are no page files, are passed over.
pub fn list_pages(entries: &Vec<DirEntry>) -> (pages: Vec<String>)
    ensures
        views(pages@) == sort_by(stored_pages(entry_views(entries@)), by_name()),
        sorted_by(views(pages@), by_name()),
        views(pages@).to_multiset() == stored_pages(entry_views(entries@)).to_multiset(),
{
    let mut pages: Vec<String> = Vec::new();
    let ghost all = entry_views(entries@);
    let mut i: usize = 0;
    while i < entries.len()
        invariant
            i <= entries.len(),
            all == entry_views(entries@),
            views(pages@) == stored_pages(all.take(i as int)),
        decreases entries.len() - i,
    {
        let entry = &entries[i];
        proof {
            assert(all.take(i + 1).drop_last() == all.take(i as int));
            assert(all.take(i + 1).last() == entry@);
        }
        if entry.is_file {
            match page_of_file_name(entry.name.as_str()) {
                Some(page_name) => {
                    pages.push(page_name);
                    assert(views(pages@) == stored_pages(all.take(i as int)).push(page_name@));
                },
                None => {},
            }
        }
        i += 1;
    }
    proof {
        assert(all.take(entries.len() as int) == all);
        lemma_by_name_orders();
        lemma_sort_by_sorted(stored_pages(all), by_name());
        lemma_sort_by_permutes(stored_pages(all), by_name());
    }
    sort_vec::<String, Seq<char>, _>(pages, string_le, Ghost(string_view()), Ghost(by_name()))
}

} // verus!
