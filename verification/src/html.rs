//! Reading HTML pages through `scraper`.
use vstd::prelude::*;

verus! {

/// What is read of one element: its text and the value of one attribute.
pub type NodeRead = (String, Option<String>);

/// View of a [`NodeRead`].
pub type NodeReadView = (Seq<char>, Option<Seq<char>>);

/// How to reach an element from a matched one and which attribute to read:
/// the selectors applied in turn (each taking the first match among the
/// descendants of the element reached so far), and the attribute's name.
pub type FieldPath = (Vec<String>, String);

/// View of a [`FieldPath`].
pub open spec fn field_view(f: FieldPath) -> (Seq<Seq<char>>, Seq<char>) {
    (f.0@.map_values(|s: String| s@), f.1@)
}

/// View of field paths.
pub open spec fn fields_view(fs: Seq<FieldPath>) -> Seq<(Seq<Seq<char>>, Seq<char>)> {
    fs.map_values(|f: FieldPath| field_view(f))
}

/// View of what was read of a page.
pub open spec fn rows_view(rows: Seq<Vec<Option<NodeRead>>>) -> Seq<Seq<Option<NodeReadView>>> {
    rows.map_values(
        |row: Vec<Option<NodeRead>>|
            row@.map_values(
                |n: Option<NodeRead>|
                    match n {
                        Some(x) => Some((x.0@, crate::model::opt_view(x.1))),
                        None => None,
                    },
            ),
    )
}

/// Whether `scraper` parses the CSS selector `outer` and every selector of
/// the field paths.
pub uninterp spec fn spec_selectors_parse(outer: Seq<char>, fields: Seq<(Seq<Seq<char>>, Seq<char>)>) -> bool;

/// What `scraper` reads of the document `html`: for each element matching
/// the CSS selector `outer`, in document order, and for each field path,
/// the text (all descendant text, concatenated) and the named attribute of
/// the element the path reaches, or `None` when a step matches nothing.
pub uninterp spec fn spec_html_extract(
    html: Seq<char>,
    outer: Seq<char>,
    fields: Seq<(Seq<Seq<char>>, Seq<char>)>,
) -> Seq<Seq<Option<NodeReadView>>>;

/// `scraper::Selector::parse` of `outer` and of every selector of the
/// field paths succeeds: named `spec_selectors_parse`.
#[verifier::external_body]
pub(crate) fn selectors_parse(outer: &String, fields: &Vec<FieldPath>) -> (r: bool)
    ensures
        r == spec_selectors_parse(outer@, fields_view(fields@)),
{
    let ok = |s: &String| scraper::Selector::parse(s).is_ok();
    ok(outer) && fields.iter().all(|f| f.0.iter().all(ok))
}

/// `scraper::Html::parse_document`, then `select`, `text` and `attr` as
/// described by the name `spec_html_extract`; one row per matched element,
/// one entry per field path.
#[verifier::external_body]
pub(crate) fn html_extract(html: &str, outer: &String, fields: &Vec<FieldPath>) -> (r: Vec<
    Vec<Option<NodeRead>>,
>)
    requires
        spec_selectors_parse(outer@, fields_view(fields@)),
    ensures
        rows_view(r@) == spec_html_extract(html@, outer@, fields_view(fields@)),
        forall|i: int| 0 <= i < r@.len() ==> (#[trigger] r@[i])@.len() == fields@.len(),
{
    let p = |s: &String| scraper::Selector::parse(s).unwrap();
    let o = p(outer);
    let fs: Vec<Vec<_>> = fields.iter().map(|f| f.0.iter().map(p).collect()).collect();
    let doc = scraper::Html::parse_document(html);
    doc.select(&o).map(|el| fs.iter().zip(fields).map(|(c, f)| {
        c.iter().try_fold(el, |e, s| e.select(s).next())
            .map(|e| (e.text().collect(), e.attr(&f.1).map(String::from)))
    }).collect()).collect()
}

/// What is read of a page when its selectors parse, nothing otherwise.
pub open spec fn page_rows(
    html: Seq<char>,
    outer: Seq<char>,
    fields: Seq<(Seq<Seq<char>>, Seq<char>)>,
) -> Seq<Seq<Option<NodeReadView>>> {
    if spec_selectors_parse(outer, fields) {
        spec_html_extract(html, outer, fields)
    } else {
        Seq::empty()
    }
}

/// Reads a page (see [`page_rows`]).
pub fn read_page(html: &str, outer: &str, fields: &Vec<FieldPath>) -> (r: Vec<Vec<Option<NodeRead>>>)
    ensures
        rows_view(r@) == page_rows(html@, outer@, fields_view(fields@)),
        forall|i: int| 0 <= i < r@.len() ==> (#[trigger] r@[i])@.len() == fields@.len(),
{
    let o = outer.to_owned();
    if selectors_parse(&o, fields) {
        html_extract(html, &o, fields)
    } else {
        let r: Vec<Vec<Option<NodeRead>>> = Vec::new();
        assert(rows_view(r@) =~= Seq::<Seq<Option<NodeReadView>>>::empty());
        r
    }
}

} // verus!
