use pagefill::page::{Element, Fill, LayoutTag, Page};
use pagefill::resolve::{marker_for, read_file, Error};
use pagefill::store::{Entry, Files};
use pagefill::table::Table;

const LAYOUT: &str = "<div><placeholder name=\"body\" /></div>";

fn store() -> (Files, Table) {
    let entries = vec![
        Entry { path: "home.page.html".to_string(), file_name: "home.page.html".to_string() },
        Entry { path: "main.layout.html".to_string(), file_name: "main.layout.html".to_string() },
        Entry { path: "two.layout.html".to_string(), file_name: "two.layout.html".to_string() },
        Entry { path: "frag.fragment.html".to_string(), file_name: "frag.fragment.html".to_string() },
        Entry { path: "gone.fragment.html".to_string(), file_name: "gone.fragment.html".to_string() },
        Entry { path: "lost.layout.html".to_string(), file_name: "lost.layout.html".to_string() },
    ];
    let mut disk = Table::new();
    disk.insert("main.layout.html".to_string(), LAYOUT.to_string());
    disk.insert(
        "two.layout.html".to_string(),
        "<a><placeholder name=\"side\" /></a><b><placeholder name=\"body\" /></b><placeholder name=\"side\" />".to_string(),
    );
    disk.insert("frag.fragment.html".to_string(), "<p>hi</p>".to_string());
    (Files::walk(&entries), disk)
}

fn fill(placeholder: Option<&str>, fragment: Option<&str>, inner: &str) -> Fill {
    Fill {
        placeholder: placeholder.map(String::from),
        fragment: fragment.map(String::from),
        inner: inner.to_string(),
    }
}

fn page(layout: &str, fills: Vec<Fill>) -> Page {
    Page { layout: Some(LayoutTag { name: Some(layout.to_string()) }), fills }
}

#[test]
fn marker_for_writes_the_self_closing_tag() {
    assert_eq!(marker_for("body"), "<placeholder name=\"body\" />");
    assert_eq!(marker_for(""), "<placeholder name=\"\" />");
}

#[test]
fn read_file_gives_the_text_or_the_path() {
    let (_, disk) = store();
    assert_eq!(read_file(&disk, "frag.fragment.html").unwrap(), "<p>hi</p>");
    assert!(matches!(read_file(&disk, "nowhere.html"), Err(Error::Io(path)) if path == "nowhere.html"));
}

#[test]
fn parse_reads_layout_and_fills() {
    let parsed = Page::parse(
        "<layout name = \"main\">\n  <fill placeholder = \"sidebar\"><nav>this is the sidebar</nav></fill>\n  <fill placeholder=\"content\" fragment=\"main-content\"></fill>\n</layout>",
    );
    assert_eq!(parsed.layout.unwrap().name, Some("main".to_string()));
    assert_eq!(parsed.fills.len(), 2);
    assert_eq!(parsed.fills[0].placeholder, Some("sidebar".to_string()));
    assert_eq!(parsed.fills[0].fragment, None);
    assert_eq!(parsed.fills[0].inner, "<nav>this is the sidebar</nav>");
    assert_eq!(parsed.fills[1].placeholder, Some("content".to_string()));
    assert_eq!(parsed.fills[1].fragment, Some("main-content".to_string()));
    assert_eq!(parsed.fills[1].inner, "");
}

#[test]
fn parse_of_markup_without_the_elements() {
    let parsed = Page::parse("<p>nothing here</p>");
    assert!(parsed.layout.is_none());
    assert!(parsed.fills.is_empty());
    let bare = Page::parse("<layout><fill>x</fill></layout>");
    assert_eq!(bare.layout.unwrap().name, None);
    assert_eq!(bare.fills.len(), 1);
    assert_eq!(bare.fills[0].placeholder, None);
    assert_eq!(bare.fills[0].inner, "x");
}

#[test]
fn parse_takes_the_first_layout() {
    let parsed = Page::parse("<layout name=\"one\"></layout><layout name=\"two\"></layout>");
    assert_eq!(parsed.layout.unwrap().name, Some("one".to_string()));
}

#[test]
fn from_elements_reads_values_by_position() {
    let layouts = vec![Element { values: vec![Some("main".to_string())], inner: String::new() }];
    let fills = vec![
        Element { values: vec![Some("body".to_string()), None], inner: "<i>x</i>".to_string() },
        Element { values: vec![None, Some("frag".to_string())], inner: String::new() },
        Element { values: vec![], inner: "y".to_string() },
    ];
    let made = Page::from_elements(&layouts, &fills);
    assert_eq!(made.layout.unwrap().name, Some("main".to_string()));
    assert_eq!(made.fills.len(), 3);
    assert_eq!(made.fills[0].placeholder, Some("body".to_string()));
    assert_eq!(made.fills[0].fragment, None);
    assert_eq!(made.fills[0].inner, "<i>x</i>");
    assert_eq!(made.fills[1].placeholder, None);
    assert_eq!(made.fills[1].fragment, Some("frag".to_string()));
    assert_eq!(made.fills[2].placeholder, None);
    assert_eq!(made.fills[2].fragment, None);
    assert_eq!(made.fills[2].inner, "y");
    let none = Page::from_elements(&Vec::new(), &Vec::new());
    assert!(none.layout.is_none());
    assert!(none.fills.is_empty());
}

#[test]
fn fragment_fill_round_trip() {
    let (files, disk) = store();
    let parsed = Page::parse("<layout name=\"main\"><fill placeholder=\"body\" fragment=\"frag\" /></layout>");
    assert_eq!(files.render_page(&parsed, &disk).unwrap(), "<div><p>hi</p></div>");
}

#[test]
fn inline_fill_round_trip() {
    let (files, disk) = store();
    let parsed = Page::parse("<layout name=\"main\"><fill placeholder=\"body\"><span>x</span></fill></layout>");
    assert_eq!(files.render_page(&parsed, &disk).unwrap(), "<div><span>x</span></div>");
}

#[test]
fn every_marker_of_a_placeholder_is_replaced() {
    let (files, disk) = store();
    let both = page("two", vec![fill(Some("side"), None, "S"), fill(Some("body"), Some("frag"), "")]);
    let out = files.render_page(&both, &disk).unwrap();
    assert_eq!(out, "<a>S</a><b><p>hi</p></b>S");
    assert!(!out.contains("<placeholder"));
}

#[test]
fn unfilled_placeholder_stays() {
    let (files, disk) = store();
    let only_body = page("two", vec![fill(Some("body"), None, "B")]);
    assert_eq!(
        files.render_page(&only_body, &disk).unwrap(),
        "<a><placeholder name=\"side\" /></a><b>B</b><placeholder name=\"side\" />"
    );
    let none = page("main", Vec::new());
    assert_eq!(files.render_page(&none, &disk).unwrap(), LAYOUT);
}

#[test]
fn fill_without_a_marker_is_dropped() {
    let (files, disk) = store();
    let other = page("main", vec![fill(Some("nothing"), None, "X"), fill(Some("body"), None, "B")]);
    assert_eq!(files.render_page(&other, &disk).unwrap(), "<div>B</div>");
}

#[test]
fn repeated_fill_finds_no_marker_left() {
    let (files, disk) = store();
    let twice = page("main", vec![fill(Some("body"), None, "A"), fill(Some("body"), None, "B")]);
    assert_eq!(files.render_page(&twice, &disk).unwrap(), "<div>A</div>");
    let chained = page(
        "main",
        vec![fill(Some("body"), None, "[<placeholder name=\"body\" />]"), fill(Some("body"), None, "B")],
    );
    assert_eq!(files.render_page(&chained, &disk).unwrap(), "<div>[B]</div>");
}

#[test]
fn page_without_layout_fails() {
    let (files, disk) = store();
    let parsed = Page::parse("<fill placeholder=\"body\"><span>x</span></fill>");
    assert!(matches!(files.render_page(&parsed, &disk), Err(Error::TagNotFound("layout"))));
    let made = Page { layout: None, fills: vec![fill(Some("body"), Some("frag"), "")] };
    assert!(matches!(files.render_page(&made, &disk), Err(Error::TagNotFound("layout"))));
}

#[test]
fn layout_without_name_fails() {
    let (files, disk) = store();
    let parsed = Page::parse("<layout><fill placeholder=\"body\">x</fill></layout>");
    assert!(matches!(
        files.render_page(&parsed, &disk),
        Err(Error::AttrNotFound { tag: "layout", attr: "name" })
    ));
}

#[test]
fn unknown_layout_fails() {
    let (files, disk) = store();
    let parsed = Page::parse("<layout name=\"absent\"></layout>");
    assert!(matches!(files.render_page(&parsed, &disk), Err(Error::LayoutNotFound(name)) if name == "absent"));
}

#[test]
fn unreadable_layout_fails() {
    let (files, disk) = store();
    let lost = page("lost", Vec::new());
    assert!(matches!(files.render_page(&lost, &disk), Err(Error::Io(path)) if path == "lost.layout.html"));
}

#[test]
fn fill_without_placeholder_fails() {
    let (files, disk) = store();
    let parsed = Page::parse("<layout name=\"main\"><fill fragment=\"frag\"></fill></layout>");
    assert!(matches!(
        files.render_page(&parsed, &disk),
        Err(Error::AttrNotFound { tag: "fill", attr: "placeholder" })
    ));
}

#[test]
fn unknown_fragment_fails() {
    let (files, disk) = store();
    let parsed = Page::parse("<layout name=\"main\"><fill placeholder=\"body\" fragment=\"X\"></fill></layout>");
    assert!(matches!(files.render_page(&parsed, &disk), Err(Error::FragmentNotFound(name)) if name == "X"));
}

#[test]
fn unreadable_fragment_fails() {
    let (files, disk) = store();
    let gone = page("main", vec![fill(Some("body"), Some("gone"), "")]);
    assert!(matches!(files.render_page(&gone, &disk), Err(Error::Io(path)) if path == "gone.fragment.html"));
}

#[test]
fn first_failing_fill_decides() {
    let (files, disk) = store();
    let mixed = page(
        "main",
        vec![fill(Some("body"), None, "A"), fill(Some("x"), Some("X"), ""), fill(None, None, "")],
    );
    assert!(matches!(files.render_page(&mixed, &disk), Err(Error::FragmentNotFound(name)) if name == "X"));
    let layout_first = page("absent", vec![fill(None, None, "")]);
    assert!(matches!(files.render_page(&layout_first, &disk), Err(Error::LayoutNotFound(_))));
}

fn site() -> (Files, Table) {
    let entries = vec![
        Entry { path: "a/b/home.page.html".to_string(), file_name: "home.page.html".to_string() },
        Entry { path: "about.page.html".to_string(), file_name: "about.page.html".to_string() },
        Entry { path: "bad.page.html".to_string(), file_name: "bad.page.html".to_string() },
        Entry { path: "last.page.html".to_string(), file_name: "last.page.html".to_string() },
        Entry { path: "main.layout.html".to_string(), file_name: "main.layout.html".to_string() },
        Entry { path: "frag.fragment.html".to_string(), file_name: "frag.fragment.html".to_string() },
    ];
    let mut disk = Table::new();
    disk.insert("main.layout.html".to_string(), LAYOUT.to_string());
    disk.insert("frag.fragment.html".to_string(), "<p>hi</p>".to_string());
    disk.insert(
        "a/b/home.page.html".to_string(),
        "<layout name=\"main\"><fill placeholder=\"body\" fragment=\"frag\"></fill></layout>".to_string(),
    );
    disk.insert(
        "about.page.html".to_string(),
        "<layout name=\"main\"><fill placeholder=\"body\"><span>x</span></fill></layout>".to_string(),
    );
    disk.insert("bad.page.html".to_string(), "<layout name=\"nope\"></layout>".to_string());
    disk.insert("last.page.html".to_string(), "<layout name=\"main\"></layout>".to_string());
    (Files::walk(&entries), disk)
}

#[test]
fn render_stops_at_the_first_failure() {
    let (files, disk) = site();
    let run = files.render(&disk, "O");
    assert_eq!(run.outputs.len(), 2);
    assert_eq!(run.outputs[0].path, "O/a/b/home.page.html");
    assert_eq!(run.outputs[0].content, "<div><p>hi</p></div>");
    assert_eq!(run.outputs[1].path, "O/about.page.html");
    assert_eq!(run.outputs[1].content, "<div><span>x</span></div>");
    assert!(matches!(run.failure, Some(Error::LayoutNotFound(name)) if name == "nope"));
}

#[test]
fn render_of_all_pages() {
    let (mut files, disk) = site();
    files.pages.remove(2);
    let run = files.render(&disk, "out/");
    assert!(run.failure.is_none());
    assert_eq!(run.outputs.len(), 3);
    assert_eq!(run.outputs[2].path, "out/last.page.html");
    assert_eq!(run.outputs[2].content, LAYOUT);
}

#[test]
fn render_fails_on_a_page_that_cannot_be_read() {
    let (mut files, disk) = site();
    files.pages.insert(0, "missing.page.html".to_string());
    let run = files.render(&disk, "O");
    assert!(run.outputs.is_empty());
    assert!(matches!(run.failure, Some(Error::Io(path)) if path == "missing.page.html"));
}

#[test]
fn render_twice_gives_the_same() {
    let (files, disk) = site();
    let first = files.render(&disk, "O");
    let second = files.render(&disk, "O");
    assert_eq!(first.outputs.len(), second.outputs.len());
    for (a, b) in first.outputs.iter().zip(second.outputs.iter()) {
        assert_eq!(a.path, b.path);
        assert_eq!(a.content, b.content);
    }
}
