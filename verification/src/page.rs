//! Data model: site configuration, decoded document metadata, and the
//! per-document record that classification fills in.
use vstd::prelude::*;

verus! {

/// Mathematical model of a [`SiteConfig`].
#[verifier::ext_equal]
pub ghost struct ConfigModel {
    pub baseurl: Seq<char>,
    pub title: Seq<char>,
    pub rsslink: Seq<char>,
    pub blueprint: Seq<char>,
    pub author_name: Seq<char>,
    pub verbose: bool,
}

/// Site-wide configuration, loaded once per run and read-only afterwards.
pub struct SiteConfig {
    pub baseurl: String,
    pub title: String,
    pub rsslink: String,
    pub blueprint: String,
    pub author_name: String,
    pub verbose: bool,
}

impl View for SiteConfig {
    type V = ConfigModel;

    open spec fn view(&self) -> ConfigModel {
        ConfigModel {
            baseurl: self.baseurl@,
            title: self.title@,
            rsslink: self.rsslink@,
            blueprint: self.blueprint@,
            author_name: self.author_name@,
            verbose: self.verbose,
        }
    }
}

/// Mathematical model of a [`FrontMatter`].
#[verifier::ext_equal]
pub ghost struct FrontMatterModel {
    pub date: Seq<char>,
    pub title: Seq<char>,
    pub description: Option<Seq<char>>,
    pub draft: bool,
    pub template: Option<Seq<char>>,
    pub rsslink: Option<Seq<char>>,
    pub tags: Seq<Seq<char>>,
}

/// The typed metadata block of one document, already decoded from its
/// textual serialization. The `date` field keeps the timestamp text exactly
/// as written; parsing it is part of building the page record.
pub struct FrontMatter {
    pub date: String,
    pub title: String,
    pub description: Option<String>,
    pub draft: bool,
    pub template: Option<String>,
    pub rsslink: Option<String>,
    pub tags: Vec<String>,
}

impl View for FrontMatter {
    type V = FrontMatterModel;

    open spec fn view(&self) -> FrontMatterModel {
        FrontMatterModel {
            date: self.date@,
            title: self.title@,
            description: match self.description {
                Some(ref s) => Some(s@),
                None => None,
            },
            draft: self.draft,
            template: match self.template {
                Some(ref s) => Some(s@),
                None => None,
            },
            rsslink: match self.rsslink {
                Some(ref s) => Some(s@),
                None => None,
            },
            tags: self.tags.deep_view(),
        }
    }
}

impl FrontMatter {
    /// Whether this document is a draft and therefore produces no output
    /// and joins no collection.
    pub fn is_draft(&self) -> (r: bool)
        ensures
            r == self@.draft,
    {
        self.draft
    }
}

/// A fatal document-loading failure: the whole build aborts on either.
#[derive(Clone, Copy, Debug, PartialEq, Eq)]
pub enum BuildError {
    /// The declared `date` is not a valid RFC 3339 timestamp.
    BadDate,
    /// The template engine refused the body's macro expansion.
    TemplateFailure,
}

/// Mathematical model of a [`ParsedPage`].
#[verifier::ext_equal]
pub ghost struct PageModel {
    pub content: Seq<char>,
    pub description: Seq<char>,
    pub date: Seq<char>,
    pub stamp: i64,
    pub datefull: Seq<char>,
    pub dateshort: Seq<char>,
    pub year: Seq<char>,
    pub link: Seq<char>,
    pub readingtime: Seq<char>,
    pub rsslink: Seq<char>,
    pub section: Seq<char>,
    pub section_index: bool,
    pub template: Seq<char>,
    pub title: Seq<char>,
    pub tags: Seq<Seq<char>>,
}

/// One classified document: body already rendered to HTML, dates projected
/// to their string forms, section / template / output link resolved.
pub struct ParsedPage {
    pub content: String,
    pub description: String,
    pub date: String,
    /// The instant the `date` denotes, as seconds from a fixed epoch:
    /// the key that orders collections, independent of how the
    /// timestamp's text wrote its offset.
    pub stamp: i64,
    pub datefull: String,
    pub dateshort: String,
    pub year: String,
    pub link: String,
    pub readingtime: String,
    pub rsslink: String,
    pub section: String,
    pub section_index: bool,
    pub template: String,
    pub title: String,
    pub tags: Vec<String>,
}

impl View for ParsedPage {
    type V = PageModel;

    open spec fn view(&self) -> PageModel {
        PageModel {
            content: self.content@,
            description: self.description@,
            date: self.date@,
            stamp: self.stamp,
            datefull: self.datefull@,
            dateshort: self.dateshort@,
            year: self.year@,
            link: self.link@,
            readingtime: self.readingtime@,
            rsslink: self.rsslink@,
            section: self.section@,
            section_index: self.section_index,
            template: self.template@,
            title: self.title@,
            tags: self.tags.deep_view(),
        }
    }
}

/// The model of a freshly created, still unclassified page record.
pub open spec fn empty_page_model() -> PageModel {
    PageModel {
        content: Seq::empty(),
        description: Seq::empty(),
        date: Seq::empty(),
        stamp: 0,
        datefull: Seq::empty(),
        dateshort: Seq::empty(),
        year: Seq::empty(),
        link: Seq::empty(),
        readingtime: Seq::empty(),
        rsslink: Seq::empty(),
        section: Seq::empty(),
        section_index: false,
        template: Seq::empty(),
        title: Seq::empty(),
        tags: Seq::empty(),
    }
}

/// Copies a vector of strings element by element.
fn clone_strings(v: &Vec<String>) -> (r: Vec<String>)
    ensures
        r.deep_view() == v.deep_view(),
{
    let mut r: Vec<String> = Vec::new();
    let n = v.len();
    let mut i: usize = 0;
    while i < n
        invariant
            n == v@.len(),
            0 <= i <= n,
            r@.len() == i,
            forall|j: int| 0 <= j < i ==> r@[j]@ == v@[j]@,
        decreases n - i,
    {
        r.push(v[i].clone());
        i = i + 1;
    }
    proof {
        assert(r.deep_view() =~= v.deep_view());
    }
    r
}

impl ParsedPage {
    /// A fresh record with every field empty, the state of a document
    /// before loading and classification fill it in.
    pub fn new() -> (r: ParsedPage)
        ensures
            r@ =~= empty_page_model(),
    {
        ParsedPage {
            content: String::new(),
            description: String::new(),
            date: String::new(),
            stamp: 0,
            datefull: String::new(),
            dateshort: String::new(),
            year: String::new(),
            link: String::new(),
            rsslink: String::new(),
            readingtime: String::new(),
            section: String::new(),
            section_index: false,
            template: String::new(),
            title: String::new(),
            tags: Vec::new(),
        }
    }

    /// An equal copy of the record; the site-wide collection stores its
    /// own copy of every non-marker document.
    pub fn duplicate(&self) -> (r: ParsedPage)
        ensures
            r@ == self@,
    {
        let r = ParsedPage {
            content: self.content.clone(),
            description: self.description.clone(),
            date: self.date.clone(),
            stamp: self.stamp,
            datefull: self.datefull.clone(),
            dateshort: self.dateshort.clone(),
            year: self.year.clone(),
            link: self.link.clone(),
            readingtime: self.readingtime.clone(),
            rsslink: self.rsslink.clone(),
            section: self.section.clone(),
            section_index: self.section_index,
            template: self.template.clone(),
            title: self.title.clone(),
            tags: clone_strings(&self.tags),
        };
        proof {
            assert(r@ =~= self@);
        }
        r
    }
}

} // verus!
