//! What a page's markup declares: the layout it names and its fills.

use vstd::prelude::*;

verus! {

/// The view of an optional string.
pub open spec fn text_of(value: Option<String>) -> Option<Seq<char>> {
    match value {
        Some(text) => Some(text@),
        None => None,
    }
}

/// An element found in a page's markup: the values of the attributes that were
/// asked for, in the order of the asking, and the element's inner markup.
pub struct Element {
    pub values: Vec<Option<String>>,
    pub inner: String,
}

impl View for Element {
    type V = (Seq<Option<Seq<char>>>, Seq<char>);

    open spec fn view(&self) -> (Seq<Option<Seq<char>>>, Seq<char>) {
        (self.values@.map_values(|value: Option<String>| text_of(value)), self.inner@)
    }
}

/// The views of a list of elements.
pub open spec fn elements_view(elements: Seq<Element>) -> Seq<(Seq<Option<Seq<char>>>, Seq<char>)> {
    elements.map_values(|element: Element| element@)
}

/// The views of a list of strings.
pub open spec fn names_view(names: Seq<String>) -> Seq<Seq<char>> {
    names.map_values(|name: String| name@)
}

/// A non-empty word of the letters `a` to `z`.
pub open spec fn is_tag_name(word: Seq<char>) -> bool {
    &&& word.len() > 0
    &&& forall|i: int| 0 <= i < word.len() ==> 'a' <= #[trigger] word[i] <= 'z'
}

/// The elements that the selector `selector` matches in the HTML document
/// parsed from `markup`, in the order in which the parser made them: of each,
/// the values of the attributes `wanted`, and its inner markup serialised.
pub uninterp spec fn selected(markup: Seq<char>, selector: Seq<char>, wanted: Seq<Seq<char>>) -> Seq<(Seq<Option<Seq<char>>>, Seq<char>)>;

/// Parses `markup` with `scraper::Html::parse_document`, selects with
/// `scraper::Html::select` the elements that `scraper::Selector::parse` of the
/// tag name matches, and reads each through `scraper::node::Element::attr` and
/// `scraper::ElementRef::inner_html`. Trusted: that the result is a function of
/// the three arguments, called `selected`, and that each element carries one
/// value for each attribute asked for. A tag name always parses as a selector.
#[verifier::external_body]
fn select_elements(markup: &str, selector: &str, wanted: &Vec<String>) -> (found: Vec<Element>)
    requires
        is_tag_name(selector@),
    ensures
        elements_view(found@) == selected(markup@, selector@, names_view(wanted@)),
        forall|i: int| 0 <= i < found@.len() ==> (#[trigger] found@[i]).values@.len() == wanted@.len(),
{
    let document = scraper::Html::parse_document(markup);
    let selector = scraper::Selector::parse(selector).expect("a tag name is a selector");
    let mut found = Vec::new();
    for element in document.select(&selector) {
        let values = wanted.iter().map(|key| element.value().attr(key).map(String::from)).collect();
        found.push(Element { values, inner: element.inner_html() });
    }
    found
}

/// A `layout` element: the value of its `name` attribute, if it has one.
pub struct LayoutTag {
    pub name: Option<String>,
}

/// A `fill` element: its `placeholder` and `fragment` attributes, where it has
/// them, and its inner markup.
pub struct Fill {
    pub placeholder: Option<String>,
    pub fragment: Option<String>,
    pub inner: String,
}

/// The model of a `Fill`.
pub struct FillView {
    pub placeholder: Option<Seq<char>>,
    pub fragment: Option<Seq<char>>,
    pub inner: Seq<char>,
}

impl View for Fill {
    type V = FillView;

    open spec fn view(&self) -> FillView {
        FillView {
            placeholder: text_of(self.placeholder),
            fragment: text_of(self.fragment),
            inner: self.inner@,
        }
    }
}

/// A page as the resolver reads it: its first `layout` element, if there is
/// one, and its `fill` elements in document order.
pub struct Page {
    pub layout: Option<LayoutTag>,
    pub fills: Vec<Fill>,
}

/// The model of a `Page`. `layout` is `None` without a `layout` element and
/// `Some(None)` where that element has no `name`.
pub struct PageView {
    pub layout: Option<Option<Seq<char>>>,
    pub fills: Seq<FillView>,
}

impl View for Page {
    type V = PageView;

    open spec fn view(&self) -> PageView {
        PageView {
            layout: match self.layout {
                Some(tag) => Some(text_of(tag.name)),
                None => None,
            },
            fills: self.fills@.map_values(|fill: Fill| fill@),
        }
    }
}

/// The value at `index` of an element's attribute values; none beyond them.
pub open spec fn value_at(element: (Seq<Option<Seq<char>>>, Seq<char>), index: int) -> Option<Seq<char>> {
    if 0 <= index < element.0.len() {
        element.0[index]
    } else {
        None
    }
}

/// The fill that an element stands for, its values being those of
/// `placeholder` and `fragment`.
pub open spec fn fill_of(element: (Seq<Option<Seq<char>>>, Seq<char>)) -> FillView {
    FillView {
        placeholder: value_at(element, 0),
        fragment: value_at(element, 1),
        inner: element.1,
    }
}

/// The page that the `layout` elements (values: `name`) and the `fill`
/// elements (values: `placeholder`, `fragment`) of a document make.
pub open spec fn page_of(
    layouts: Seq<(Seq<Option<Seq<char>>>, Seq<char>)>,
    fills: Seq<(Seq<Option<Seq<char>>>, Seq<char>)>,
) -> PageView {
    PageView {
        layout: if layouts.len() == 0 {
            None
        } else {
            Some(value_at(layouts[0], 0))
        },
        fills: fills.map_values(|element: (Seq<Option<Seq<char>>>, Seq<char>)| fill_of(element)),
    }
}

/// The page that `markup` declares.
pub open spec fn parsed(markup: Seq<char>) -> PageView {
    page_of(
        selected(markup, "layout"@, seq!["name"@]),
        selected(markup, "fill"@, seq!["placeholder"@, "fragment"@]),
    )
}

fn cloned(value: &Option<String>) -> (copy: Option<String>)
    ensures
        text_of(copy) == text_of(*value),
{
    match value {
        Some(text) => Some(text.clone()),
        None => None,
    }
}

fn value_of(element: &Element, index: usize) -> (value: Option<String>)
    ensures
        text_of(value) == value_at(element@, index as int),
{
    if index < element.values.len() {
        cloned(&element.values[index])
    } else {
        None
    }
}

impl Page {
    /// Builds the page from the elements found in its markup: the first of
    /// `layouts` is the page's layout, each of `fills` is a fill.
    pub fn from_elements(layouts: &Vec<Element>, fills: &Vec<Element>) -> (page: Page)
        ensures
            page@ == page_of(elements_view(layouts@), elements_view(fills@)),
    {
        let layout = if layouts.len() == 0 {
            None
        } else {
            Some(LayoutTag { name: value_of(&layouts[0], 0) })
        };
        let mut made: Vec<Fill> = Vec::new();
        let mut i: usize = 0;
        while i < fills.len()
            invariant
                i <= fills@.len(),
                made@.len() == i,
                forall|j: int| 0 <= j < i ==> (#[trigger] made@[j])@ == fill_of(fills@[j]@),
            decreases fills@.len() - i,
        {
            let element = &fills[i];
            made.push(
                Fill {
                    placeholder: value_of(element, 0),
                    fragment: value_of(element, 1),
                    inner: element.inner.clone(),
                },
            );
            i = i + 1;
        }
        let page = Page { layout, fills: made };
        proof {
            assert(page@.fills =~= page_of(elements_view(layouts@), elements_view(fills@)).fills);
        }
        page
    }

    /// Reads the `layout` and `fill` elements of `markup`.
    pub fn parse(markup: &str) -> (page: Page)
        ensures
            page@ == parsed(markup@),
    {
        let mut layout_keys: Vec<String> = Vec::new();
        layout_keys.push(String::from_str("name"));
        let mut fill_keys: Vec<String> = Vec::new();
        fill_keys.push(String::from_str("placeholder"));
        fill_keys.push(String::from_str("fragment"));
        proof {
            reveal_strlit("layout");
            reveal_strlit("fill");
            assert(names_view(layout_keys@) =~= seq!["name"@]);
            assert(names_view(fill_keys@) =~= seq!["placeholder"@, "fragment"@]);
        }
        let layouts = select_elements(markup, "layout", &layout_keys);
        let fills = select_elements(markup, "fill", &fill_keys);
        Page::from_elements(&layouts, &fills)
    }
}

} // verus!
