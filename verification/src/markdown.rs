//! The markup-to-HTML collaborator: an outside CommonMark converter,
//! trusted to be a pure function of the body text.
use vstd::prelude::*;

verus! {

/// The HTML rendering of a CommonMark body: a pure function of the text,
/// the same on every machine and in every run.
pub uninterp spec fn html_of(md: Seq<char>) -> Seq<char>;

/// Relies on pulldown_cmark's `Parser::new` and `html::push_html`: the
/// conversion reads nothing but the text, and on empty input the parser
/// yields no events, so nothing is written.
#[verifier::external_body]
pub(crate) fn markdown_to_html(s: &str) -> (r: String)
    ensures
        r@ == html_of(s@),
        s@.len() == 0 ==> r@.len() == 0,
{
    let parser = pulldown_cmark::Parser::new(s);
    let mut out = String::new();
    pulldown_cmark::html::push_html(&mut out, parser);
    out
}

} // verus!
