//! The preformatted text of an HTML page.
use vstd::prelude::*;
use vstd::string::*;

verus! {

/// The text nodes inside the `pre` elements of the HTML document `html`,
/// in document order.
pub uninterp spec fn pre_texts_of(html: Seq<char>) -> Seq<Seq<char>>;

/// Relies on `scraper::Html::parse_document`, `scraper::Selector::parse`,
/// `Html::select` and `ElementRef::text`: the text nodes of every `pre`
/// element of the parsed document, in document order, which depend on the
/// document alone.
#[verifier::external_body]
fn pre_texts(html: &str) -> (r: Vec<String>)
    ensures
        r@.len() == pre_texts_of(html@).len(),
        forall|k: int| 0 <= k < r@.len() ==> (#[trigger] r@[k])@ == pre_texts_of(html@)[k],
{
    let document = scraper::Html::parse_document(html);
    let mut texts: Vec<String> = Vec::new();
    if let Ok(selector) = scraper::Selector::parse("pre") {
        for pre in document.select(&selector) {
            texts.extend(pre.text().map(String::from));
        }
    }
    texts
}

/// The texts of `texts` one after another.
pub open spec fn concat_texts(texts: Seq<Seq<char>>) -> Seq<char>
    decreases texts.len(),
{
    if texts.len() == 0 {
        Seq::empty()
    } else {
        concat_texts(texts.drop_last()) + texts.last()
    }
}

/// Joins `texts` into one text, in order.
pub fn join_texts(texts: &Vec<String>) -> (r: String)
    ensures
        r@ == concat_texts(texts@.map_values(|t: String| t@)),
{
    let ghost views = texts@.map_values(|t: String| t@);
    let mut joined = String::new();
    let mut k: usize = 0;
    while k < texts.len()
        invariant
            k <= texts@.len(),
            views == texts@.map_values(|t: String| t@),
            joined@ == concat_texts(views.subrange(0, k as int)),
        decreases texts@.len() - k,
    {
        joined.append(texts[k].as_str());
        assert(views.subrange(0, k as int + 1).drop_last() =~= views.subrange(0, k as int));
        k = k + 1;
    }
    assert(views.subrange(0, texts@.len() as int) =~= views);
    joined
}

/// The text of all `pre` elements of the HTML document `html`, in document
/// order.
pub fn parse_pre_elements(html: &str) -> (r: String)
    ensures
        r@ == concat_texts(pre_texts_of(html@)),
{
    let texts = pre_texts(html);
    assert(texts@.map_values(|t: String| t@) =~= pre_texts_of(html@));
    join_texts(&texts)
}

} // verus!
