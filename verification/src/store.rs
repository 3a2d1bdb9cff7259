//! The template store: which files are pages, layouts and fragments.

use crate::table::Table;
use crate::text::{has_suffix, strip_suffix, without_suffix};
use vstd::prelude::*;

verus! {

/// The suffix of a page file's name.
pub open spec fn page_suffix() -> Seq<char> {
    ".page.html"@
}

/// The suffix of a layout file's name.
pub open spec fn layout_suffix() -> Seq<char> {
    ".layout.html"@
}

/// The suffix of a fragment file's name.
pub open spec fn fragment_suffix() -> Seq<char> {
    ".fragment.html"@
}

/// The model of a `Role`.
pub enum Kind {
    Page,
    Layout(Seq<char>),
    Fragment(Seq<char>),
    Other,
}

/// The role that a file's name gives it. The page suffix is tried first, then
/// the layout suffix, then the fragment suffix; a layout or a fragment is named
/// by what stands before the suffix.
pub open spec fn kind_of(file_name: Seq<char>) -> Kind {
    if has_suffix(file_name, page_suffix()) {
        Kind::Page
    } else if has_suffix(file_name, layout_suffix()) {
        Kind::Layout(without_suffix(file_name, layout_suffix()))
    } else if has_suffix(file_name, fragment_suffix()) {
        Kind::Fragment(without_suffix(file_name, fragment_suffix()))
    } else {
        Kind::Other
    }
}

/// The role of a file in the store.
#[derive(Debug)]
pub enum Role {
    Page,
    Layout(String),
    Fragment(String),
    Other,
}

impl View for Role {
    type V = Kind;

    open spec fn view(&self) -> Kind {
        match self {
            Role::Page => Kind::Page,
            Role::Layout(name) => Kind::Layout(name@),
            Role::Fragment(name) => Kind::Fragment(name@),
            Role::Other => Kind::Other,
        }
    }
}

/// Tells a file's role from its name.
pub fn classify(file_name: &str) -> (role: Role)
    ensures
        role@ == kind_of(file_name@),
{
    if strip_suffix(file_name, ".page.html").is_some() {
        return Role::Page;
    }
    if let Some(name) = strip_suffix(file_name, ".layout.html") {
        return Role::Layout(name);
    }
    if let Some(name) = strip_suffix(file_name, ".fragment.html") {
        return Role::Fragment(name);
    }
    Role::Other
}

/// A regular file met in the source tree: its path below the source root and
/// the last component of that path.
pub struct Entry {
    pub path: String,
    pub file_name: String,
}

/// The pages in the order of their discovery, and the layouts and fragments by
/// name. The tables hold paths, never contents.
pub struct Files {
    pub pages: Vec<String>,
    pub layouts: Table,
    pub fragments: Table,
}

/// The model of `Files`.
pub struct FilesView {
    pub pages: Seq<Seq<char>>,
    pub layouts: Map<Seq<char>, Seq<char>>,
    pub fragments: Map<Seq<char>, Seq<char>>,
}

impl View for Files {
    type V = FilesView;

    open spec fn view(&self) -> FilesView {
        FilesView {
            pages: self.pages@.map_values(|path: String| path@),
            layouts: self.layouts@,
            fragments: self.fragments@,
        }
    }
}

/// The store without any file.
pub open spec fn no_files() -> FilesView {
    FilesView { pages: Seq::empty(), layouts: Map::empty(), fragments: Map::empty() }
}

/// The store after the file at `path`, named `file_name`, has been added. A
/// page goes to the end of the pages; a layout or fragment takes its name,
/// also from a file that had it before; any other file changes nothing.
pub open spec fn added(files: FilesView, path: Seq<char>, file_name: Seq<char>) -> FilesView {
    match kind_of(file_name) {
        Kind::Page => FilesView { pages: files.pages.push(path), ..files },
        Kind::Layout(name) => FilesView { layouts: files.layouts.insert(name, path), ..files },
        Kind::Fragment(name) => FilesView { fragments: files.fragments.insert(name, path), ..files },
        Kind::Other => files,
    }
}

/// The store that a walk which met `entries`, in that order, leaves.
pub open spec fn walked(entries: Seq<Entry>) -> FilesView
    decreases entries.len(),
{
    if entries.len() == 0 {
        no_files()
    } else {
        added(walked(entries.drop_last()), entries.last().path@, entries.last().file_name@)
    }
}

impl Files {
    /// The empty store.
    pub fn new() -> (files: Files)
        ensures
            files@ == no_files(),
    {
        let files = Files { pages: Vec::new(), layouts: Table::new(), fragments: Table::new() };
        assert(files@.pages =~= Seq::<Seq<char>>::empty());
        files
    }

    /// Files one entry under the role that its name gives it.
    pub fn add(&mut self, entry: &Entry)
        ensures
            final(self)@ == added(old(self)@, entry.path@, entry.file_name@),
    {
        match classify(entry.file_name.as_str()) {
            Role::Page => {
                self.pages.push(entry.path.clone());
                assert(self@.pages =~= old(self)@.pages.push(entry.path@));
            },
            Role::Layout(name) => {
                self.layouts.insert(name, entry.path.clone());
            },
            Role::Fragment(name) => {
                self.fragments.insert(name, entry.path.clone());
            },
            Role::Other => {},
        }
    }

    /// Builds the store from the files that a walk of the source tree met.
    pub fn walk(entries: &Vec<Entry>) -> (files: Files)
        ensures
            files@ == walked(entries@),
    {
        let mut files = Files::new();
        let mut i: usize = 0;
        while i < entries.len()
            invariant
                i <= entries@.len(),
                files@ == walked(entries@.subrange(0, i as int)),
            decreases entries@.len() - i,
        {
            proof {
                let next = entries@.subrange(0, i + 1);
                assert(next.drop_last() =~= entries@.subrange(0, i as int));
                assert(next.last() == entries@[i as int]);
            }
            files.add(&entries[i]);
            i = i + 1;
        }
        assert(entries@.subrange(0, i as int) =~= entries@);
        files
    }
}

} // verus!
