//! The resolver: a page's fills are merged into the text of its layout.

use crate::emit::{destination, joined};
use crate::page::{parsed, FillView, Page, PageView};
use crate::store::Files;
use crate::table::Table;
use crate::text::{replace_all, replaced};
use vstd::prelude::*;

verus! {

/// Why a page could not be rendered.
#[derive(Debug)]
pub enum Error {
    /// The file at this path could not be read.
    Io(String),
    /// The page has no element with this tag.
    TagNotFound(&'static str),
    /// An element with tag `tag` lacks the attribute `attr`.
    AttrNotFound { tag: &'static str, attr: &'static str },
    /// No layout of this name is in the store.
    LayoutNotFound(String),
    /// No fragment of this name is in the store.
    FragmentNotFound(String),
}

/// The model of an `Error`.
pub enum Failure {
    Io(Seq<char>),
    TagNotFound(Seq<char>),
    AttrNotFound { tag: Seq<char>, attr: Seq<char> },
    LayoutNotFound(Seq<char>),
    FragmentNotFound(Seq<char>),
}

impl View for Error {
    type V = Failure;

    open spec fn view(&self) -> Failure {
        match self {
            Error::Io(path) => Failure::Io(path@),
            Error::TagNotFound(tag) => Failure::TagNotFound(tag@),
            Error::AttrNotFound { tag, attr } => Failure::AttrNotFound { tag: tag@, attr: attr@ },
            Error::LayoutNotFound(name) => Failure::LayoutNotFound(name@),
            Error::FragmentNotFound(name) => Failure::FragmentNotFound(name@),
        }
    }
}

/// The model of a rendering's result.
pub open spec fn outcome(result: Result<String, Error>) -> Result<Seq<char>, Failure> {
    match result {
        Ok(text) => Ok(text@),
        Err(error) => Err(error@),
    }
}

/// The marker that a layout holds for the placeholder `name`.
pub open spec fn marker(name: Seq<char>) -> Seq<char> {
    "<placeholder name=\""@ + name + "\" />"@
}

/// The text of the file at `path`, where `disk` has it.
pub open spec fn read(disk: Map<Seq<char>, Seq<char>>, path: Seq<char>) -> Result<
    Seq<char>,
    Failure,
> {
    if disk.contains_key(path) {
        Ok(disk[path])
    } else {
        Err(Failure::Io(path))
    }
}

/// What a fill puts in its placeholder's place: the text of the fragment it
/// names, or else its own inner markup.
pub open spec fn fill_text(
    fill: FillView,
    fragments: Map<Seq<char>, Seq<char>>,
    disk: Map<Seq<char>, Seq<char>>,
) -> Result<Seq<char>, Failure> {
    match fill.fragment {
        Some(name) => if fragments.contains_key(name) {
            read(disk, fragments[name])
        } else {
            Err(Failure::FragmentNotFound(name))
        },
        None => Ok(fill.inner),
    }
}

/// The buffer after one fill: every marker of the fill's placeholder has given
/// way to the fill's text.
pub open spec fn fill_step(
    buffer: Seq<char>,
    fill: FillView,
    fragments: Map<Seq<char>, Seq<char>>,
    disk: Map<Seq<char>, Seq<char>>,
) -> Result<Seq<char>, Failure> {
    match fill.placeholder {
        None => Err(Failure::AttrNotFound { tag: "fill"@, attr: "placeholder"@ }),
        Some(name) => match fill_text(fill, fragments, disk) {
            Err(failure) => Err(failure),
            Ok(text) => Ok(replaced(buffer, marker(name), text)),
        },
    }
}

/// The buffer after the fills, taken in order; the first that fails ends it.
pub open spec fn filled(
    buffer: Seq<char>,
    fills: Seq<FillView>,
    fragments: Map<Seq<char>, Seq<char>>,
    disk: Map<Seq<char>, Seq<char>>,
) -> Result<Seq<char>, Failure>
    decreases fills.len(),
{
    if fills.len() == 0 {
        Ok(buffer)
    } else {
        match fill_step(buffer, fills[0], fragments, disk) {
            Err(failure) => Err(failure),
            Ok(next) => filled(next, fills.drop_first(), fragments, disk),
        }
    }
}

/// The rendering of a page: the text of the layout that it names, with its
/// fills applied in order.
pub open spec fn resolved(
    page: PageView,
    layouts: Map<Seq<char>, Seq<char>>,
    fragments: Map<Seq<char>, Seq<char>>,
    disk: Map<Seq<char>, Seq<char>>,
) -> Result<Seq<char>, Failure> {
    match page.layout {
        None => Err(Failure::TagNotFound("layout"@)),
        Some(None) => Err(Failure::AttrNotFound { tag: "layout"@, attr: "name"@ }),
        Some(Some(name)) => if !layouts.contains_key(name) {
            Err(Failure::LayoutNotFound(name))
        } else {
            match read(disk, layouts[name]) {
                Err(failure) => Err(failure),
                Ok(text) => filled(text, page.fills, fragments, disk),
            }
        },
    }
}

/// The output of the page at `path`: where it goes under `dist`, and its
/// rendering.
pub open spec fn page_output(
    path: Seq<char>,
    layouts: Map<Seq<char>, Seq<char>>,
    fragments: Map<Seq<char>, Seq<char>>,
    disk: Map<Seq<char>, Seq<char>>,
    dist: Seq<char>,
) -> Result<(Seq<char>, Seq<char>), Failure> {
    match read(disk, path) {
        Err(failure) => Err(failure),
        Ok(markup) => match resolved(parsed(markup), layouts, fragments, disk) {
            Err(failure) => Err(failure),
            Ok(text) => Ok((joined(dist, path), text)),
        },
    }
}

/// A rendered page and the path to write it to.
#[derive(Debug)]
pub struct Output {
    pub path: String,
    pub content: String,
}

impl View for Output {
    type V = (Seq<char>, Seq<char>);

    open spec fn view(&self) -> (Seq<char>, Seq<char>) {
        (self.path@, self.content@)
    }
}

/// What a run over the pages gave: the outputs of the pages before the first
/// failure, and that failure.
#[derive(Debug)]
pub struct Run {
    pub outputs: Vec<Output>,
    pub failure: Option<Error>,
}

/// The model of a `Run`.
pub struct RunView {
    pub outputs: Seq<(Seq<char>, Seq<char>)>,
    pub failure: Option<Failure>,
}

impl View for Run {
    type V = RunView;

    open spec fn view(&self) -> RunView {
        RunView {
            outputs: self.outputs@.map_values(|output: Output| output@),
            failure: match self.failure {
                Some(error) => Some(error@),
                None => None,
            },
        }
    }
}

/// `run` is what rendering `pages` in order gives: one output for each page
/// before the first that fails, in the pages' order, and that page's failure;
/// or, where none fails, one output for each page and no failure.
pub open spec fn is_run(
    run: RunView,
    pages: Seq<Seq<char>>,
    layouts: Map<Seq<char>, Seq<char>>,
    fragments: Map<Seq<char>, Seq<char>>,
    disk: Map<Seq<char>, Seq<char>>,
    dist: Seq<char>,
) -> bool {
    &&& run.outputs.len() <= pages.len()
    &&& forall|i: int|
        0 <= i < run.outputs.len() ==> page_output(pages[i], layouts, fragments, disk, dist)
            == Ok::<(Seq<char>, Seq<char>), Failure>(#[trigger] run.outputs[i])
    &&& match run.failure {
        None => run.outputs.len() == pages.len(),
        Some(failure) => run.outputs.len() < pages.len() && page_output(
            pages[run.outputs.len() as int],
            layouts,
            fragments,
            disk,
            dist,
        ) == Err::<(Seq<char>, Seq<char>), Failure>(failure),
    }
}

/// The marker text for the placeholder `name`.
pub fn marker_for(name: &str) -> (text: String)
    ensures
        text@ == marker(name@),
{
    let mut text = String::from_str("<placeholder name=\"");
    text.append(name);
    text.append("\" />");
    text
}

/// Reads the file at `path` from `disk`.
pub fn read_file<'a>(disk: &'a Table, path: &str) -> (result: Result<&'a String, Error>)
    ensures
        match result {
            Ok(text) => read(disk@, path@) == Ok::<Seq<char>, Failure>(text@),
            Err(error) => read(disk@, path@) == Err::<Seq<char>, Failure>(error@),
        },
{
    match disk.get(path) {
        Some(text) => Ok(text),
        None => Err(Error::Io(String::from_str(path))),
    }
}

impl Files {
    /// Resolves one page against the store. `disk` holds the text of each
    /// file that can be read, by its path.
    pub fn render_page(&self, page: &Page, disk: &Table) -> (result: Result<String, Error>)
        ensures
            outcome(result) == resolved(page@, self.layouts@, self.fragments@, disk@),
    {
        let tag = match &page.layout {
            None => {
                return Err(Error::TagNotFound("layout"));
            },
            Some(tag) => tag,
        };
        let name = match &tag.name {
            None => {
                return Err(Error::AttrNotFound { tag: "layout", attr: "name" });
            },
            Some(name) => name,
        };
        let layout_path = match self.layouts.get(name.as_str()) {
            None => {
                return Err(Error::LayoutNotFound(name.clone()));
            },
            Some(path) => path,
        };
        let mut buffer: String = match read_file(disk, layout_path.as_str()) {
            Err(error) => {
                return Err(error);
            },
            Ok(text) => text.clone(),
        };
        let ghost fills = page@.fills;
        let ghost goal = resolved(page@, self.layouts@, self.fragments@, disk@);
        let n: usize = page.fills.len();
        let mut i: usize = 0;
        assert(fills.subrange(0, n as int) =~= fills);
        while i < n
            invariant
                i <= n,
                n == page.fills@.len(),
                fills == page@.fills,
                goal == resolved(page@, self.layouts@, self.fragments@, disk@),
                goal == filled(buffer@, fills.subrange(i as int, n as int), self.fragments@, disk@),
            decreases n - i,
        {
            let fill = &page.fills[i];
            proof {
                let rest = fills.subrange(i as int, n as int);
                assert(rest[0] == fill@);
                assert(rest.drop_first() =~= fills.subrange(i + 1, n as int));
            }
            let placeholder = match &fill.placeholder {
                None => {
                    return Err(Error::AttrNotFound { tag: "fill", attr: "placeholder" });
                },
                Some(placeholder) => placeholder,
            };
            let text: String = match &fill.fragment {
                Some(fragment) => {
                    let path = match self.fragments.get(fragment.as_str()) {
                        None => {
                            return Err(Error::FragmentNotFound(fragment.clone()));
                        },
                        Some(path) => path,
                    };
                    match read_file(disk, path.as_str()) {
                        Err(error) => {
                            return Err(error);
                        },
                        Ok(text) => text.clone(),
                    }
                },
                None => fill.inner.clone(),
            };
            let wanted = marker_for(placeholder.as_str());
            buffer = replace_all(buffer.as_str(), wanted.as_str(), text.as_str());
            i = i + 1;
        }
        Ok(buffer)
    }

    /// Renders the pages of the store in order, up to the first that fails.
    /// Each page's markup is read from `disk` and parsed; its output is bound
    /// for the page's own path under `dist`.
    pub fn render(&self, disk: &Table, dist: &str) -> (run: Run)
        ensures
            is_run(run@, self@.pages, self.layouts@, self.fragments@, disk@, dist@),
    {
        let mut outputs: Vec<Output> = Vec::new();
        let mut i: usize = 0;
        while i < self.pages.len()
            invariant
                i <= self.pages@.len(),
                outputs@.len() == i,
                forall|j: int|
                    0 <= j < i ==> page_output(
                        self@.pages[j],
                        self.layouts@,
                        self.fragments@,
                        disk@,
                        dist@,
                    ) == Ok::<(Seq<char>, Seq<char>), Failure>((#[trigger] outputs@[j])@),
            decreases self.pages@.len() - i,
        {
            let path = &self.pages[i];
            assert(self@.pages[i as int] == path@);
            let markup = match read_file(disk, path.as_str()) {
                Err(error) => {
                    let run = Run { outputs, failure: Some(error) };
                    assert(run@.outputs.len() == i);
                    return run;
                },
                Ok(markup) => markup,
            };
            let page = Page::parse(markup.as_str());
            let content = match self.render_page(&page, disk) {
                Err(error) => {
                    let run = Run { outputs, failure: Some(error) };
                    assert(run@.outputs.len() == i);
                    return run;
                },
                Ok(content) => content,
            };
            outputs.push(Output { path: destination(dist, path.as_str()), content });
            i = i + 1;
        }
        Run { outputs, failure: None }
    }
}

} // verus!
