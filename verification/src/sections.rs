//! The section registry: an ordered, uniquely-keyed collection of page
//! buckets, with the three sentinel sections that always exist, and the
//! placement rule that sends every classified document to its section's
//! bucket and every non-marker document to the site-wide bucket too.
use vstd::prelude::*;
use vstd::string::*;
use crate::page::{PageModel, ParsedPage};
use crate::text::str_eq;

verus! {

/// Mathematical model of a [`Section`].
#[verifier::ext_equal]
pub ghost struct SectionModel {
    pub key: Seq<char>,
    pub pages: Seq<PageModel>,
}

/// One section: a path-derived key and the ordered collection of its
/// member documents, appended to during classification.
pub struct Section {
    pub key: String,
    pub pages: Vec<ParsedPage>,
}

impl View for Section {
    type V = SectionModel;

    open spec fn view(&self) -> SectionModel {
        SectionModel { key: self.key@, pages: self.pages@.map_values(|p: ParsedPage| p@) }
    }
}

/// Whether some section of `m` carries the key `k`.
pub open spec fn has_key(m: Seq<SectionModel>, k: Seq<char>) -> bool {
    exists|i: int| 0 <= i < m.len() && m[i].key == k
}

/// The index of the section keyed `k`; meaningful only under [`has_key`].
pub open spec fn idx_of(m: Seq<SectionModel>, k: Seq<char>) -> int {
    choose|i: int| 0 <= i < m.len() && m[i].key == k
}

/// The pages collected under key `k`, empty where no such section exists.
pub open spec fn bucket(m: Seq<SectionModel>, k: Seq<char>) -> Seq<PageModel> {
    if has_key(m, k) {
        m[idx_of(m, k)].pages
    } else {
        Seq::empty()
    }
}

/// No two sections share a key.
pub open spec fn uniq_keys(m: Seq<SectionModel>) -> bool {
    forall|i: int, j: int| 0 <= i < j < m.len() ==> m[i].key != m[j].key
}

/// Well-formed registry: unique keys, and the three sentinel sections
/// present.
pub open spec fn sections_wf(m: Seq<SectionModel>) -> bool {
    uniq_keys(m) && has_key(m, "_index"@) && has_key(m, "_default"@) && has_key(m, "_pages"@)
}

/// The registry of all sections of one build.
pub struct Sections {
    pub secs: Vec<Section>,
}

impl View for Sections {
    type V = Seq<SectionModel>;

    open spec fn view(&self) -> Seq<SectionModel> {
        self.secs@.map_values(|s: Section| s@)
    }
}

impl Sections {
    /// A fresh registry holding exactly the three sentinel sections, all
    /// empty: the site root, the fallback for unmatched documents, and
    /// the site-wide collection.
    pub fn new() -> (r: Sections)
        ensures
            sections_wf(r@),
            r@.len() == 3,
            r@[0] =~= (SectionModel { key: "_index"@, pages: Seq::empty() }),
            r@[1] =~= (SectionModel { key: "_default"@, pages: Seq::empty() }),
            r@[2] =~= (SectionModel { key: "_pages"@, pages: Seq::empty() }),
    {
        let mut secs: Vec<Section> = Vec::new();
        secs.push(Section { key: "_index".to_owned(), pages: Vec::new() });
        secs.push(Section { key: "_default".to_owned(), pages: Vec::new() });
        secs.push(Section { key: "_pages".to_owned(), pages: Vec::new() });
        let r = Sections { secs };
        proof {
            reveal_strlit("_index");
            reveal_strlit("_default");
            reveal_strlit("_pages");
            assert(r@[0].pages =~= Seq::<PageModel>::empty());
            assert(r@[1].pages =~= Seq::<PageModel>::empty());
            assert(r@[2].pages =~= Seq::<PageModel>::empty());
            assert(("_index"@).len() != ("_default"@).len());
            assert(("_pages"@).len() != ("_default"@).len());
            assert(("_index"@)[1] == 'i' && ("_pages"@)[1] == 'p');
            assert(r@[0].key != r@[1].key && r@[0].key != r@[2].key && r@[1].key != r@[2].key);
        }
        r
    }

    /// The number of sections.
    pub fn count(&self) -> (r: usize)
        ensures
            r == self@.len(),
    {
        self.secs.len()
    }

    /// The index of the section keyed `key`, if present.
    pub fn find(&self, key: &str) -> (r: Option<usize>)
        requires
            uniq_keys(self@),
        ensures
            match r {
                Some(i) => has_key(self@, key@) && i == idx_of(self@, key@) && i < self@.len()
                    && self@[i as int].key == key@,
                None => !has_key(self@, key@),
            },
    {
        let n = self.secs.len();
        let mut i: usize = 0;
        while i < n
            invariant
                n == self@.len(),
                0 <= i <= n,
                uniq_keys(self@),
                forall|j: int| 0 <= j < i ==> self@[j].key != key@,
            decreases n - i,
        {
            if str_eq(self.secs[i].key.as_str(), key) {
                proof {
                    assert(self@[i as int] == self.secs@[i as int]@);
                    assert(self@[i as int].key == key@);
                    assert(has_key(self@, key@));
                    let w = idx_of(self@, key@);
                    assert(0 <= w < self@.len() && self@[w].key == key@);
                    assert(w == i);
                }
                return Some(i);
            }
            i = i + 1;
        }
        None
    }

    /// Registers a key: appends a fresh empty section for it unless one
    /// already exists. Keeps the registry well-formed.
    pub fn register(&mut self, key: &str)
        requires
            sections_wf(old(self)@),
        ensures
            sections_wf(final(self)@),
            has_key(final(self)@, key@),
            has_key(old(self)@, key@) ==> final(self)@ == old(self)@,
            !has_key(old(self)@, key@) ==> final(self)@ =~= old(self)@.push(
                SectionModel { key: key@, pages: Seq::empty() },
            ),
    {
        match self.find(key) {
            Some(_) => {},
            None => {
                self.secs.push(Section { key: key.to_owned(), pages: Vec::new() });
                proof {
                    let m0 = old(self)@;
                    let m1 = self@;
                    assert(m1 =~~= m0.push(SectionModel { key: key@, pages: Seq::empty() }));
                    assert(m1[m0.len() as int].key == key@);
                    assert(has_key(m1, "_index"@)) by {
                        let w = idx_of(m0, "_index"@);
                        assert(m1[w].key == "_index"@);
                    }
                    assert(has_key(m1, "_default"@)) by {
                        let w = idx_of(m0, "_default"@);
                        assert(m1[w].key == "_default"@);
                    }
                    assert(has_key(m1, "_pages"@)) by {
                        let w = idx_of(m0, "_pages"@);
                        assert(m1[w].key == "_pages"@);
                    }
                }
            },
        }
    }
}

/// The registry after placing a classified document `p`: appended to its
/// own section's bucket, and, unless it is a section marker, to the
/// site-wide `_pages` bucket as well.
pub open spec fn place_model(m: Seq<SectionModel>, p: PageModel) -> Seq<SectionModel> {
    let i = idx_of(m, p.section);
    let m2 = m.update(i, SectionModel { key: m[i].key, pages: m[i].pages.push(p) });
    if p.section_index {
        m2
    } else {
        let j = idx_of(m2, "_pages"@);
        m2.update(j, SectionModel { key: m2[j].key, pages: m2[j].pages.push(p) })
    }
}

impl Sections {
    /// Places a classified document: appends it to its section's bucket,
    /// and, unless it is a section marker, a copy to the site-wide
    /// `_pages` bucket. Drafts are never placed: the loading step drops
    /// them before classification.
    pub fn place_page(&mut self, page: ParsedPage)
        requires
            sections_wf(old(self)@),
            has_key(old(self)@, page@.section),
        ensures
            final(self)@ == place_model(old(self)@, page@),
            sections_wf(final(self)@),
            final(self)@.len() == old(self)@.len(),
            forall|x: int| 0 <= x < old(self)@.len() ==> final(self)@[x].key == old(self)@[x].key,
    {
        let ghost m0 = self@;
        let i: usize = match self.find(page.section.as_str()) {
            Some(i) => i,
            None => {
                proof {
                    assert(false);
                }
                0
            },
        };
        let marker = page.section_index;
        let dup = if marker {
            None
        } else {
            Some(page.duplicate())
        };
        self.secs[i].pages.push(page);
        let ghost m2 = m0.update(
            i as int,
            SectionModel { key: m0[i as int].key, pages: m0[i as int].pages.push(page@) },
        );
        proof {
            assert(self@ =~~= m2);
            assert(forall|x: int| 0 <= x < m2.len() ==> m2[x].key == m0[x].key);
            assert(uniq_keys(m2));
            assert(has_key(m2, "_index"@)) by {
                let w = idx_of(m0, "_index"@);
                assert(m2[w].key == "_index"@);
            }
            assert(has_key(m2, "_default"@)) by {
                let w = idx_of(m0, "_default"@);
                assert(m2[w].key == "_default"@);
            }
            assert(has_key(m2, "_pages"@)) by {
                let w = idx_of(m0, "_pages"@);
                assert(m2[w].key == "_pages"@);
            }
        }
        match dup {
            None => {
                proof {
                    assert(self@ == place_model(m0, page@));
                }
            },
            Some(d) => {
                let j: usize = match self.find("_pages") {
                    Some(j) => j,
                    None => {
                        proof {
                            assert(false);
                        }
                        0
                    },
                };
                self.secs[j].pages.push(d);
                proof {
                    let jj = idx_of(m2, "_pages"@);
                    assert(jj == j);
                    assert(self@ =~~= m2.update(
                        jj,
                        SectionModel { key: m2[jj].key, pages: m2[jj].pages.push(page@) },
                    ));
                    assert(self@ == place_model(m0, page@));
                    assert(forall|x: int| 0 <= x < self@.len() ==> self@[x].key == m0[x].key);
                    assert(has_key(self@, "_index"@)) by {
                        let w = idx_of(m0, "_index"@);
                        assert(self@[w].key == "_index"@);
                    }
                    assert(has_key(self@, "_default"@)) by {
                        let w = idx_of(m0, "_default"@);
                        assert(self@[w].key == "_default"@);
                    }
                    assert(has_key(self@, "_pages"@)) by {
                        let w = idx_of(m0, "_pages"@);
                        assert(self@[w].key == "_pages"@);
                    }
                }
            },
        }
    }
}

/// How often `p` occurs in a bucket.
pub open spec fn count_page(s: Seq<PageModel>, p: PageModel) -> nat
    decreases s.len(),
{
    if s.len() == 0 {
        0
    } else {
        count_page(s.drop_last(), p) + if s.last() == p {
            1nat
        } else {
            0nat
        }
    }
}

/// Appending `q` raises the count of `q` by one and changes no other
/// count.
pub proof fn lemma_count_push(s: Seq<PageModel>, p: PageModel, q: PageModel)
    ensures
        count_page(s.push(q), p) == count_page(s, p) + if q == p {
            1nat
        } else {
            0nat
        },
{
    assert(s.push(q).drop_last() =~= s);
}

/// Placing a non-marker document touches exactly two buckets: it is
/// appended once to its own section's bucket and once to the site-wide
/// `_pages` bucket, and every other bucket is left as it was.
pub proof fn lemma_place_document_membership(m: Seq<SectionModel>, p: PageModel)
    requires
        sections_wf(m),
        has_key(m, p.section),
        !p.section_index,
        p.section != "_pages"@,
    ensures
        count_page(bucket(place_model(m, p), p.section), p) == count_page(bucket(m, p.section), p)
            + 1,
        count_page(bucket(place_model(m, p), "_pages"@), p) == count_page(bucket(m, "_pages"@), p)
            + 1,
        forall|k: Seq<char>|
            k != p.section && k != "_pages"@ ==> #[trigger] bucket(place_model(m, p), k) == bucket(
                m,
                k,
            ),
{
    let i = idx_of(m, p.section);
    let m2 = m.update(i, SectionModel { key: m[i].key, pages: m[i].pages.push(p) });
    let m1 = place_model(m, p);
    assert(0 <= i < m.len() && m[i].key == p.section);
    assert(forall|x: int| 0 <= x < m.len() ==> m2[x].key == m[x].key);
    assert(uniq_keys(m2));
    let jm = idx_of(m, "_pages"@);
    assert(0 <= jm < m.len() && m[jm].key == "_pages"@);
    assert(m2[jm].key == "_pages"@);
    assert(has_key(m2, "_pages"@));
    let j2 = idx_of(m2, "_pages"@);
    assert(0 <= j2 < m2.len() && m2[j2].key == "_pages"@);
    assert(j2 == jm);
    assert(i != j2);
    assert(m1 == m2.update(j2, SectionModel { key: m2[j2].key, pages: m2[j2].pages.push(p) }));
    assert(forall|x: int| 0 <= x < m.len() ==> m1[x].key == m[x].key);
    assert(uniq_keys(m1));
    assert(m1[i].pages == m[i].pages.push(p));
    assert(m1[j2].pages == m[jm].pages.push(p));
    assert(has_key(m1, p.section));
    assert(idx_of(m1, p.section) == i);
    assert(idx_of(m1, "_pages"@) == j2);
    lemma_count_push(m[i].pages, p, p);
    lemma_count_push(m[jm].pages, p, p);
    assert(bucket(m, p.section) == m[i].pages);
    assert(bucket(m, "_pages"@) == m[jm].pages);
    assert(bucket(m1, p.section) == m1[i].pages);
    assert(bucket(m1, "_pages"@) == m1[j2].pages);
    assert forall|k: Seq<char>|
        k != p.section && k != "_pages"@ implies #[trigger] bucket(m1, k) == bucket(m, k) by {
        if has_key(m, k) {
            let w = idx_of(m, k);
            assert(0 <= w < m.len() && m[w].key == k);
            assert(m1[w].key == k);
            assert(has_key(m1, k));
            assert(idx_of(m1, k) == w);
            assert(w != i && w != j2);
            assert(m1[w].pages == m[w].pages);
        } else {
            if has_key(m1, k) {
                let w = idx_of(m1, k);
                assert(m[w].key == k);
                assert(false);
            }
        }
    }
}

/// Every non-draft, non-marker document appears in exactly one section
/// collection and exactly once in the site-wide collection: placing a
/// document that no bucket holds yet puts one copy in its own section's
/// bucket, one in `_pages`, and none anywhere else. Drafts are dropped
/// before placement and so appear nowhere.
pub proof fn lemma_place_document_unique(m: Seq<SectionModel>, p: PageModel)
    requires
        sections_wf(m),
        has_key(m, p.section),
        !p.section_index,
        p.section != "_pages"@,
        forall|k: Seq<char>| #[trigger] count_page(bucket(m, k), p) == 0,
    ensures
        count_page(bucket(place_model(m, p), p.section), p) == 1,
        count_page(bucket(place_model(m, p), "_pages"@), p) == 1,
        forall|k: Seq<char>|
            k != p.section && k != "_pages"@ ==> #[trigger] count_page(
                bucket(place_model(m, p), k),
                p,
            ) == 0,
{
    lemma_place_document_membership(m, p);
}

} // verus!
