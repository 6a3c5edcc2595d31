//! The content classifier: from a document's path relative to the content
//! root, its decoded metadata and the set of known sections, derive its
//! section membership, its template name, its output path and link, and
//! its marker status, and assemble the finished page record.
use vstd::prelude::*;
use vstd::string::*;
use crate::page::{FrontMatter, FrontMatterModel, PageModel, ParsedPage, BuildError};
use crate::sections::{Sections, SectionModel, sections_wf};
use crate::text::{
    is_prefix_of, is_suffix_of, starts_with, ends_with, str_eq, count_words, reading_time,
    reading_time_of, word_count, u64_dec, dec_of,
};
use crate::dates::{
    DateParts, rfc3339_of, parse_rfc3339, date_rfc3339_str, date_full_str, date_short_str,
    year_str, fmt_rfc3339, fmt_full, fmt_short, fmt_year, instant_of, instant,
};
use crate::markdown::{html_of, markdown_to_html};

verus! {

/// The keys of a section registry, in registry order.
pub open spec fn keys_of(m: Seq<SectionModel>) -> Seq<Seq<char>> {
    m.map_values(|s: SectionModel| s.key)
}

/// Whether the document at `path` is the content root's own marker file.
pub open spec fn is_root_marker(path: Seq<char>) -> bool {
    path == "_index.md"@
}

/// Whether the document at `path` is a per-directory marker file.
pub open spec fn is_dir_marker(path: Seq<char>) -> bool {
    is_suffix_of("/_index.md"@, path)
}

/// Whether `path` lies inside the section keyed `k`: the key, taken as a
/// directory prefix, leads to the document.
pub open spec fn key_matches(path: Seq<char>, k: Seq<char>) -> bool {
    is_prefix_of(k + "/"@, path)
}

/// Whether any known section key matches `path`.
pub open spec fn has_section_match(keys: Seq<Seq<char>>, path: Seq<char>) -> bool {
    exists|i: int| 0 <= i < keys.len() && key_matches(path, keys[i])
}

/// The longest known section key matching `path`: ties cannot arise, two
/// matching keys of one length are the same key.
pub open spec fn section_match(keys: Seq<Seq<char>>, path: Seq<char>) -> Seq<char> {
    choose|k: Seq<char>|
        keys.contains(k) && key_matches(path, k) && (forall|k2: Seq<char>|
            keys.contains(k2) && key_matches(path, k2) ==> k2.len() <= k.len())
}

/// Two matching keys of equal length are equal.
proof fn lemma_match_same_len(path: Seq<char>, k1: Seq<char>, k2: Seq<char>)
    requires
        key_matches(path, k1),
        key_matches(path, k2),
        k1.len() == k2.len(),
    ensures
        k1 == k2,
{
    let p1 = k1 + "/"@;
    let p2 = k2 + "/"@;
    assert(path.take(p1.len() as int) == p1);
    assert(path.take(p2.len() as int) == p2);
    assert(k1 =~= k2) by {
        assert(forall|x: int| 0 <= x < k1.len() ==> p1[x] == k1[x] && p2[x] == k2[x]);
    }
}

/// Finds the longest registered section key that matches `path`.
fn longest_section_key(sections: &Sections, path: &str) -> (r: Option<String>)
    ensures
        match r {
            Some(k) => has_section_match(keys_of(sections@), path@) && k@ == section_match(
                keys_of(sections@),
                path@,
            ),
            None => !has_section_match(keys_of(sections@), path@),
        },
{
    let ghost keys = keys_of(sections@);
    let n = sections.secs.len();
    let mut best: Option<usize> = None;
    let mut i: usize = 0;
    while i < n
        invariant
            n == sections@.len(),
            keys == keys_of(sections@),
            0 <= i <= n,
            match best {
                None => forall|j: int| 0 <= j < i ==> !key_matches(path@, keys[j]),
                Some(b) => 0 <= b < i && key_matches(path@, keys[b as int]) && (forall|j: int|
                    0 <= j < i && key_matches(path@, keys[j]) ==> keys[j].len()
                        <= keys[b as int].len()),
            },
        decreases n - i,
    {
        let key = &sections.secs[i].key;
        let mut probe = key.clone();
        probe.append("/");
        proof {
            assert(keys[i as int] == sections@[i as int].key);
            assert(probe@ == keys[i as int] + "/"@);
        }
        if starts_with(path, probe.as_str()) {
            match best {
                None => {
                    best = Some(i);
                },
                Some(b) => {
                    if sections.secs[b].key.unicode_len() < key.unicode_len() {
                        best = Some(i);
                    }
                },
            }
        }
        i = i + 1;
    }
    match best {
        None => {
            proof {
                assert(forall|j: int| 0 <= j < keys.len() ==> !key_matches(path@, keys[j]));
            }
            None
        },
        Some(b) => {
            let k = sections.secs[b].key.clone();
            proof {
                assert(k@ == keys[b as int]);
                assert(keys.contains(k@) && key_matches(path@, k@) && (forall|k2: Seq<char>|
                    keys.contains(k2) && key_matches(path@, k2) ==> k2.len() <= k@.len())) by {
                    assert(forall|k2: Seq<char>| #[trigger]
                        keys.contains(k2) && key_matches(path@, k2) ==> k2.len() <= k@.len()) by {
                        assert(forall|j: int|
                            0 <= j < keys.len() && key_matches(path@, keys[j]) ==> keys[j].len()
                                <= k@.len());
                    }
                }
                let kk = section_match(keys, path@);
                assert(keys.contains(kk) && key_matches(path@, kk) && (forall|k2: Seq<char>|
                    keys.contains(k2) && key_matches(path@, k2) ==> k2.len() <= kk.len()));
                assert(kk.len() <= k@.len() && k@.len() <= kk.len());
                lemma_match_same_len(path@, k@, kk);
            }
            Some(k)
        },
    }
}

/// The section a document belongs to: the root marker joins the root
/// sentinel, a document inside a known section joins that section, any
/// other standalone document falls back to the default sentinel, and a
/// stray directory marker outside every known section keeps an empty key.
pub open spec fn section_assigned(keys: Seq<Seq<char>>, path: Seq<char>) -> Seq<char> {
    if is_root_marker(path) {
        "_index"@
    } else if has_section_match(keys, path) {
        section_match(keys, path)
    } else if is_dir_marker(path) {
        Seq::empty()
    } else {
        "_default"@
    }
}

/// The template basename before any section rewrite: a per-document
/// metadata override where present, the generic page template otherwise.
pub open spec fn base_template(fm: FrontMatterModel) -> Seq<char> {
    match fm.template {
        Some(t) => t,
        None => "page.html"@,
    }
}

/// The resolved template identifier: the root marker renders through the
/// site index template, a directory marker through its section's index
/// template, a document inside a section through the section-rewritten
/// basename, and anything else through the basename itself.
pub open spec fn template_resolved(
    keys: Seq<Seq<char>>,
    path: Seq<char>,
    fm: FrontMatterModel,
) -> Seq<char> {
    if is_root_marker(path) {
        "index.html"@
    } else if is_dir_marker(path) {
        section_assigned(keys, path) + "_index.html"@
    } else if has_section_match(keys, path) {
        section_match(keys, path) + "_"@ + base_template(fm)
    } else {
        base_template(fm)
    }
}

/// The site-relative output directory of a document, with a trailing
/// slash: empty for the root marker, the marker's directory for a
/// directory marker, and one directory per document otherwise.
pub open spec fn link_of(path: Seq<char>) -> Seq<char> {
    if is_root_marker(path) {
        Seq::empty()
    } else if is_dir_marker(path) {
        path.take(path.len() - 9)
    } else {
        path.take(path.len() - 3) + "/"@
    }
}

/// The output file of a document: the `index` file of its link directory.
pub open spec fn out_path_of(path: Seq<char>) -> Seq<char> {
    link_of(path) + "index.html"@
}

/// Whether the document is a marker (of the root or of a directory):
/// markers feed the aggregators and are never rendered standalone.
pub open spec fn is_marker(path: Seq<char>) -> bool {
    is_root_marker(path) || is_dir_marker(path)
}

/// The finished page record of a non-draft document whose timestamp
/// decoded to `p`: the whole outcome of loading and classification.
pub open spec fn built_page(
    keys: Seq<Seq<char>>,
    path: Seq<char>,
    fm: FrontMatterModel,
    raw_body: Seq<char>,
    expanded_body: Seq<char>,
    p: DateParts,
) -> PageModel {
    PageModel {
        content: html_of(expanded_body),
        description: match fm.description {
            Some(d) => d,
            None => Seq::empty(),
        },
        date: date_rfc3339_str(p),
        stamp: instant_of(p) as i64,
        datefull: date_full_str(p),
        dateshort: date_short_str(p),
        year: year_str(p),
        link: link_of(path),
        readingtime: dec_of(reading_time_of(word_count(raw_body))),
        rsslink: if is_dir_marker(path) {
            match fm.rsslink {
                Some(r) => r,
                None => Seq::empty(),
            }
        } else {
            Seq::empty()
        },
        section: section_assigned(keys, path),
        section_index: is_marker(path),
        template: template_resolved(keys, path, fm),
        title: fm.title,
        tags: fm.tags,
    }
}

/// A classified document ready for output: the page record, where its
/// rendering belongs, and whether a standalone rendering is owed at all.
pub struct PagePlan {
    /// The finished page record.
    pub page: ParsedPage,
    /// Output file, relative to the output root.
    pub out_path: String,
    /// True for markers: they feed the aggregators and get no standalone
    /// output file.
    pub skip_write: bool,
}

/// Builds the page record of one document. `rel_path` is the source path
/// relative to the content root (`/`-separated), `raw_body` the body text
/// as found in the file, `expanded_body` the body after the template
/// engine's macro pass. Drafts are parsed but yield no plan; an
/// undecodable timestamp aborts the build.
pub fn build_page(
    sections: &Sections,
    rel_path: &str,
    fm: FrontMatter,
    raw_body: &str,
    expanded_body: &str,
) -> (r: Result<Option<PagePlan>, BuildError>)
    requires
        sections_wf(sections@),
        is_suffix_of(".md"@, rel_path@),
    ensures
        fm@.draft ==> (r matches Ok(op) && op is None),
        !fm@.draft && rfc3339_of(fm@.date) is None ==> (r matches Err(e) && e
            == BuildError::BadDate),
        !fm@.draft && rfc3339_of(fm@.date) is Some ==> (r matches Ok(op) && op matches Some(plan)
            && plan.page@ == built_page(
            keys_of(sections@),
            rel_path@,
            fm@,
            raw_body@,
            expanded_body@,
            rfc3339_of(fm@.date).unwrap(),
        ) && plan.out_path@ == out_path_of(rel_path@) && plan.skip_write == is_marker(rel_path@)),
{
    if fm.draft {
        return Ok(None);
    }
    let parts = match parse_rfc3339(fm.date.as_str()) {
        None => {
            return Err(BuildError::BadDate);
        },
        Some(p) => p,
    };

    let root_marker = str_eq(rel_path, "_index.md");
    let dir_marker = ends_with(rel_path, "/_index.md");
    proof {
        assert(("/_index.md"@).len() == 10 && (".md"@).len() == 3) by {
            reveal_strlit("/_index.md");
            reveal_strlit(".md");
        }
    }
    let matched = longest_section_key(sections, rel_path);

    // Section membership.
    let section: String = if root_marker {
        "_index".to_owned()
    } else {
        match &matched {
            Some(k) => k.clone(),
            None => {
                if dir_marker {
                    String::new()
                } else {
                    "_default".to_owned()
                }
            },
        }
    };

    // Template resolution.
    let base: String = match fm.template {
        Some(t) => t,
        None => "page.html".to_owned(),
    };
    let template: String = if root_marker {
        "index.html".to_owned()
    } else if dir_marker {
        let mut t = section.clone();
        t.append("_index.html");
        t
    } else {
        match &matched {
            Some(_) => {
                let mut t = section.clone();
                t.append("_");
                t.append(base.as_str());
                t
            },
            None => base,
        }
    };

    // Output link and path.
    let n = rel_path.unicode_len();
    let link: String = if root_marker {
        String::new()
    } else if dir_marker {
        rel_path.substring_char(0, n - 9).to_owned()
    } else {
        let mut l = rel_path.substring_char(0, n - 3).to_owned();
        l.append("/");
        l
    };
    let mut out_path = link.clone();
    out_path.append("index.html");

    // Body, dates, reading time.
    let content = markdown_to_html(expanded_body);
    let words = count_words(raw_body);
    let rt = reading_time(words);
    let page = ParsedPage {
        content,
        description: match fm.description {
            Some(d) => d,
            None => String::new(),
        },
        date: fmt_rfc3339(&parts),
        stamp: instant(&parts),
        datefull: fmt_full(&parts),
        dateshort: fmt_short(&parts),
        year: fmt_year(&parts),
        link,
        readingtime: u64_dec(rt as u64),
        rsslink: if dir_marker {
            match fm.rsslink {
                Some(r) => r,
                None => String::new(),
            }
        } else {
            String::new()
        },
        section,
        section_index: root_marker || dir_marker,
        template,
        title: fm.title,
        tags: fm.tags,
    };
    proof {
        assert(page@ =~= built_page(
            keys_of(sections@),
            rel_path@,
            fm@,
            raw_body@,
            expanded_body@,
            parts,
        ));
        assert(out_path@ == out_path_of(rel_path@));
    }
    Ok(Some(PagePlan { page, out_path, skip_write: root_marker || dir_marker }))
}

} // verus!
