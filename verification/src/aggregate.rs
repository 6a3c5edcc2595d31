//! Aggregation: ordering a collection of pages by the instant their
//! date denotes, most recent first and stable for equal dates, and
//! deriving the listing page and syndication feed of a section and of
//! the site.
use vstd::prelude::*;
use vstd::string::*;
use crate::page::{PageModel, ParsedPage, SiteConfig, ConfigModel};
use crate::sections::{Section, SectionModel, Sections, sections_wf, bucket, count_page};

verus! {

/// The page models of a vector of pages.
pub open spec fn models(s: Seq<ParsedPage>) -> Seq<PageModel> {
    s.map_values(|p: ParsedPage| p@)
}

/// `x` inserted into `s` directly before the first entry denoting a
/// strictly older instant: after every at-least-as-recent entry, so an
/// entry inserted later never overtakes an equally dated earlier one.
pub open spec fn insert_desc(s: Seq<PageModel>, x: PageModel) -> Seq<PageModel>
    decreases s.len(),
{
    if s.len() == 0 {
        seq![x]
    } else if s[0].stamp < x.stamp {
        seq![x] + s
    } else {
        seq![s[0]] + insert_desc(s.drop_first(), x)
    }
}

/// The stable descending sort by the instant a date denotes: entries
/// processed in discovery order, each inserted after all equally recent
/// ones.
pub open spec fn sort_desc(s: Seq<PageModel>) -> Seq<PageModel>
    decreases s.len(),
{
    if s.len() == 0 {
        Seq::empty()
    } else {
        insert_desc(sort_desc(s.drop_last()), s.last())
    }
}

/// Sorted by instant, most recent first.
pub open spec fn sorted_desc(s: Seq<PageModel>) -> bool {
    forall|i: int, j: int| 0 <= i < j < s.len() ==> s[i].stamp >= s[j].stamp
}

/// Inserting preserves length.
pub proof fn lemma_insert_len(s: Seq<PageModel>, x: PageModel)
    ensures
        insert_desc(s, x).len() == s.len() + 1,
    decreases s.len(),
{
    if s.len() > 0 && s[0].stamp >= x.stamp {
        lemma_insert_len(s.drop_first(), x);
    }
}

/// The elements of an insertion: the new one, or one of the old ones.
pub proof fn lemma_insert_elems(s: Seq<PageModel>, x: PageModel, k: int)
    requires
        0 <= k < insert_desc(s, x).len(),
    ensures
        insert_desc(s, x)[k] == x || exists|i: int| 0 <= i < s.len() && insert_desc(s, x)[k]
            == s[i],
    decreases s.len(),
{
    lemma_insert_len(s, x);
    if s.len() == 0 {
    } else if s[0].stamp < x.stamp {
        if k > 0 {
            assert(insert_desc(s, x)[k] == s[k - 1]);
        }
    } else {
        if k > 0 {
            lemma_insert_elems(s.drop_first(), x, k - 1);
            if insert_desc(s.drop_first(), x)[k - 1] != x {
                let i = choose|i: int|
                    0 <= i < s.drop_first().len() && insert_desc(s.drop_first(), x)[k - 1]
                        == s.drop_first()[i];
                assert(insert_desc(s, x)[k] == s[i + 1]);
            }
        }
    }
}

/// Inserting into a sorted sequence keeps it sorted.
pub proof fn lemma_insert_sorted(s: Seq<PageModel>, x: PageModel)
    requires
        sorted_desc(s),
    ensures
        sorted_desc(insert_desc(s, x)),
    decreases s.len(),
{
    lemma_insert_len(s, x);
    let r = insert_desc(s, x);
    if s.len() == 0 {
    } else if s[0].stamp < x.stamp {
        assert forall|i: int, j: int| 0 <= i < j < r.len() implies r[i].stamp >= r[j].stamp by {
            if i == 0 {
                assert(r[j] == s[j - 1]);
            } else {
                assert(r[i] == s[i - 1] && r[j] == s[j - 1]);
            }
        }
    } else {
        assert(sorted_desc(s.drop_first())) by {
            assert(forall|i: int, j: int|
                0 <= i < j < s.drop_first().len() ==> s.drop_first()[i] == s[i + 1]
                    && s.drop_first()[j] == s[j + 1]);
        }
        lemma_insert_sorted(s.drop_first(), x);
        let t = insert_desc(s.drop_first(), x);
        assert forall|i: int, j: int| 0 <= i < j < r.len() implies r[i].stamp >= r[j].stamp by {
            if i == 0 {
                assert(r[j] == t[j - 1]);
                lemma_insert_elems(s.drop_first(), x, j - 1);
                if t[j - 1] == x {
                    assert(s[0].stamp >= x.stamp);
                } else {
                    let w = choose|w: int|
                        0 <= w < s.drop_first().len() && t[j - 1] == s.drop_first()[w];
                    assert(t[j - 1] == s[w + 1]);
                    assert(s[0].stamp >= s[w + 1].stamp);
                }
            } else {
                assert(r[i] == t[i - 1] && r[j] == t[j - 1]);
            }
        }
    }
}

/// The sort sorts.
pub proof fn lemma_sort_desc_sorted(s: Seq<PageModel>)
    ensures
        sorted_desc(sort_desc(s)),
    decreases s.len(),
{
    if s.len() > 0 {
        lemma_sort_desc_sorted(s.drop_last());
        lemma_insert_sorted(sort_desc(s.drop_last()), s.last());
    }
}

/// Counting across a cons.
proof fn lemma_count_cons(a: PageModel, s: Seq<PageModel>, p: PageModel)
    ensures
        count_page(seq![a] + s, p) == count_page(s, p) + if a == p {
            1nat
        } else {
            0nat
        },
    decreases s.len(),
{
    let c = seq![a] + s;
    if s.len() == 0 {
        assert(c =~= seq![a]);
        assert(c.drop_last() =~= Seq::<PageModel>::empty());
    } else {
        assert(c.drop_last() =~= seq![a] + s.drop_last());
        assert(c.last() == s.last());
        lemma_count_cons(a, s.drop_last(), p);
        assert(count_page(c, p) == count_page(c.drop_last(), p) + (if c.last() == p {
            1nat
        } else {
            0nat
        }));
        assert(count_page(s, p) == count_page(s.drop_last(), p) + (if s.last() == p {
            1nat
        } else {
            0nat
        }));
    }
}

/// Inserting raises the count of the inserted page by one and no other.
pub proof fn lemma_insert_count(s: Seq<PageModel>, x: PageModel, p: PageModel)
    ensures
        count_page(insert_desc(s, x), p) == count_page(s, p) + if x == p {
            1nat
        } else {
            0nat
        },
    decreases s.len(),
{
    if s.len() == 0 {
        assert(insert_desc(s, x) =~= seq![x]);
        assert(seq![x].drop_last() =~= Seq::<PageModel>::empty());
        assert(count_page(Seq::<PageModel>::empty(), p) == 0);
        assert(count_page(insert_desc(s, x), p) == count_page(s, p) + (if x == p {
            1nat
        } else {
            0nat
        }));
    } else if s[0].stamp < x.stamp {
        lemma_count_cons(x, s, p);
        assert(insert_desc(s, x) == seq![x] + s);
        assert(count_page(insert_desc(s, x), p) == count_page(s, p) + (if x == p {
            1nat
        } else {
            0nat
        }));
    } else {
        lemma_insert_count(s.drop_first(), x, p);
        lemma_count_cons(s[0], insert_desc(s.drop_first(), x), p);
        lemma_count_cons(s[0], s.drop_first(), p);
        assert(seq![s[0]] + s.drop_first() =~= s);
        assert(insert_desc(s, x) == seq![s[0]] + insert_desc(s.drop_first(), x));
        assert(count_page(insert_desc(s, x), p) == count_page(insert_desc(s.drop_first(), x), p)
            + (if s[0] == p {
            1nat
        } else {
            0nat
        }));
        assert(count_page(s, p) == count_page(s.drop_first(), p) + (if s[0] == p {
            1nat
        } else {
            0nat
        }));
    }
}

/// The sort is a permutation: it keeps every page's count.
pub proof fn lemma_sort_desc_permutes(s: Seq<PageModel>, p: PageModel)
    ensures
        count_page(sort_desc(s), p) == count_page(s, p),
    decreases s.len(),
{
    if s.len() > 0 {
        lemma_sort_desc_permutes(s.drop_last(), p);
        lemma_insert_count(sort_desc(s.drop_last()), s.last(), p);
    }
}

/// The entries of `s` whose date denotes exactly the instant `t`, in
/// order.
pub open spec fn filter_stamp(s: Seq<PageModel>, t: i64) -> Seq<PageModel>
    decreases s.len(),
{
    if s.len() == 0 {
        Seq::empty()
    } else if s[0].stamp == t {
        seq![s[0]] + filter_stamp(s.drop_first(), t)
    } else {
        filter_stamp(s.drop_first(), t)
    }
}

proof fn lemma_filter_snoc(s: Seq<PageModel>, x: PageModel, t: i64)
    ensures
        filter_stamp(s.push(x), t) == if x.stamp == t {
            filter_stamp(s, t).push(x)
        } else {
            filter_stamp(s, t)
        },
    decreases s.len(),
{
    let c = s.push(x);
    if s.len() == 0 {
        assert(c.drop_first() =~= Seq::<PageModel>::empty());
        assert(c[0] == x);
        assert(filter_stamp(Seq::<PageModel>::empty(), t) == Seq::<PageModel>::empty());
        assert(filter_stamp(s, t) == Seq::<PageModel>::empty());
        if x.stamp == t {
            assert(filter_stamp(c, t) =~= filter_stamp(s, t).push(x));
        }
    } else {
        assert(c[0] == s[0]);
        assert(c.drop_first() =~= s.drop_first().push(x));
        lemma_filter_snoc(s.drop_first(), x, t);
        if s[0].stamp == t {
            if x.stamp == t {
                assert(seq![s[0]] + filter_stamp(s.drop_first(), t).push(x) =~= (seq![s[0]]
                    + filter_stamp(s.drop_first(), t)).push(x));
            }
        }
    }
}

proof fn lemma_filter_none(s: Seq<PageModel>, t: i64)
    requires
        forall|i: int| 0 <= i < s.len() ==> #[trigger] s[i].stamp < t,
    ensures
        filter_stamp(s, t) == Seq::<PageModel>::empty(),
    decreases s.len(),
{
    if s.len() > 0 {
        assert(forall|i: int|
            0 <= i < s.drop_first().len() ==> #[trigger] s.drop_first()[i].stamp < t);
        lemma_filter_none(s.drop_first(), t);
    }
}

proof fn lemma_filter_insert(s: Seq<PageModel>, x: PageModel, t: i64)
    requires
        sorted_desc(s),
    ensures
        filter_stamp(insert_desc(s, x), t) == if x.stamp == t {
            filter_stamp(s, t).push(x)
        } else {
            filter_stamp(s, t)
        },
    decreases s.len(),
{
    let r = insert_desc(s, x);
    if s.len() == 0 {
        assert(r =~= seq![x]);
        assert(seq![x].drop_first() =~= Seq::<PageModel>::empty());
        assert(filter_stamp(Seq::<PageModel>::empty(), t) == Seq::<PageModel>::empty());
        if x.stamp == t {
            assert(filter_stamp(r, t) =~= filter_stamp(s, t).push(x));
        }
    } else if s[0].stamp < x.stamp {
        assert(r == seq![x] + s);
        assert(r[0] == x);
        assert(r.drop_first() =~= s);
        if x.stamp == t {
            assert forall|i: int| 0 <= i < s.len() implies #[trigger] s[i].stamp < t by {
                if i > 0 {
                    assert(s[0].stamp >= s[i].stamp);
                }
            }
            lemma_filter_none(s, t);
            assert(filter_stamp(r, t) =~= filter_stamp(s, t).push(x));
        }
    } else {
        assert(r == seq![s[0]] + insert_desc(s.drop_first(), x));
        assert(sorted_desc(s.drop_first())) by {
            assert(forall|i: int, j: int|
                0 <= i < j < s.drop_first().len() ==> s.drop_first()[i] == s[i + 1]
                    && s.drop_first()[j] == s[j + 1]);
        }
        lemma_filter_insert(s.drop_first(), x, t);
        lemma_insert_len(s.drop_first(), x);
        assert(r[0] == s[0]);
        assert(r.drop_first() =~= insert_desc(s.drop_first(), x));
        if s[0].stamp == t {
            if x.stamp == t {
                assert(seq![s[0]] + filter_stamp(s.drop_first(), t).push(x) =~= (seq![s[0]]
                    + filter_stamp(s.drop_first(), t)).push(x));
            }
        }
    }
}

/// Stability: for every instant, the sort keeps the entries denoting
/// that instant in their discovery order — sorting never reorders equal
/// dates.
pub proof fn lemma_sort_desc_stable(s: Seq<PageModel>, t: i64)
    ensures
        filter_stamp(sort_desc(s), t) == filter_stamp(s, t),
    decreases s.len(),
{
    if s.len() > 0 {
        lemma_sort_desc_stable(s.drop_last(), t);
        lemma_sort_desc_sorted(s.drop_last());
        lemma_filter_insert(sort_desc(s.drop_last()), s.last(), t);
        assert(s =~= s.drop_last().push(s.last()));
        lemma_filter_snoc(s.drop_last(), s.last(), t);
    }
}

proof fn lemma_insert_at_end(s: Seq<PageModel>, x: PageModel)
    requires
        forall|i: int| 0 <= i < s.len() ==> #[trigger] s[i].stamp >= x.stamp,
    ensures
        insert_desc(s, x) == s.push(x),
    decreases s.len(),
{
    if s.len() == 0 {
        assert(insert_desc(s, x) =~= s.push(x));
    } else {
        assert(forall|i: int|
            0 <= i < s.drop_first().len() ==> s.drop_first()[i] == s[i + 1]);
        lemma_insert_at_end(s.drop_first(), x);
        assert(seq![s[0]] + s.drop_first().push(x) =~= s.push(x));
    }
}

/// Re-sorting an already sorted collection changes nothing: repeated
/// aggregation over unchanged input reproduces the same order.
pub proof fn lemma_sort_desc_idempotent(s: Seq<PageModel>)
    requires
        sorted_desc(s),
    ensures
        sort_desc(s) == s,
    decreases s.len(),
{
    if s.len() > 0 {
        assert(sorted_desc(s.drop_last())) by {
            assert(forall|i: int, j: int|
                0 <= i < j < s.drop_last().len() ==> s.drop_last()[i] == s[i]
                    && s.drop_last()[j] == s[j]);
        }
        lemma_sort_desc_idempotent(s.drop_last());
        assert(forall|i: int|
            0 <= i < s.drop_last().len() ==> #[trigger] s.drop_last()[i].stamp >= s.last().stamp);
        lemma_insert_at_end(s.drop_last(), s.last());
        assert(s.drop_last().push(s.last()) =~= s);
    }
}

/// The entries of `s` that are not section markers, in order.
pub open spec fn non_markers(s: Seq<PageModel>) -> Seq<PageModel>
    decreases s.len(),
{
    if s.len() == 0 {
        Seq::empty()
    } else if !s[0].section_index {
        seq![s[0]] + non_markers(s.drop_first())
    } else {
        non_markers(s.drop_first())
    }
}

proof fn lemma_non_markers_elems(s: Seq<PageModel>, k: int)
    requires
        0 <= k < non_markers(s).len(),
    ensures
        exists|i: int| 0 <= i < s.len() && non_markers(s)[k] == s[i],
    decreases s.len(),
{
    if s.len() > 0 {
        if !s[0].section_index {
            if k > 0 {
                lemma_non_markers_elems(s.drop_first(), k - 1);
                let i = choose|i: int|
                    0 <= i < s.drop_first().len() && non_markers(s.drop_first())[k - 1]
                        == s.drop_first()[i];
                assert(non_markers(s)[k] == s[i + 1]);
            }
        } else {
            lemma_non_markers_elems(s.drop_first(), k);
            let i = choose|i: int|
                0 <= i < s.drop_first().len() && non_markers(s.drop_first())[k]
                    == s.drop_first()[i];
            assert(non_markers(s)[k] == s[i + 1]);
        }
    }
}

/// Dropping the markers keeps the order sorted.
pub proof fn lemma_non_markers_sorted(s: Seq<PageModel>)
    requires
        sorted_desc(s),
    ensures
        sorted_desc(non_markers(s)),
    decreases s.len(),
{
    if s.len() > 0 {
        assert(sorted_desc(s.drop_first())) by {
            assert(forall|i: int, j: int|
                0 <= i < j < s.drop_first().len() ==> s.drop_first()[i] == s[i + 1]
                    && s.drop_first()[j] == s[j + 1]);
        }
        lemma_non_markers_sorted(s.drop_first());
        let t = non_markers(s.drop_first());
        if !s[0].section_index {
            let r = non_markers(s);
            assert forall|i: int, j: int| 0 <= i < j < r.len() implies r[i].stamp
                >= r[j].stamp by {
                if i == 0 {
                    assert(r[j] == t[j - 1]);
                    lemma_non_markers_elems(s.drop_first(), j - 1);
                    let w = choose|w: int|
                        0 <= w < s.drop_first().len() && t[j - 1] == s.drop_first()[w];
                    assert(t[j - 1] == s[w + 1]);
                    assert(s[0].stamp >= s[w + 1].stamp);
                } else {
                    assert(r[i] == t[i - 1] && r[j] == t[j - 1]);
                }
            }
        }
    }
}

/// The first marker entry of `s`, the one whose template and variables
/// seed the section's listing page and feed.
pub open spec fn first_marker(s: Seq<PageModel>) -> Option<PageModel>
    decreases s.len(),
{
    if s.len() == 0 {
        None
    } else if s[0].section_index {
        Some(s[0])
    } else {
        first_marker(s.drop_first())
    }
}

/// The feed-level date of an ordered collection: the date of its most
/// recent non-marker entry, empty where there is none.
pub open spec fn feed_date(s: Seq<PageModel>) -> Seq<char> {
    if non_markers(s).len() == 0 {
        Seq::empty()
    } else {
        non_markers(s)[0].date
    }
}

/// Characterizes the insertion point: `x` goes exactly to the first
/// position whose entry denotes a strictly older instant.
proof fn lemma_insert_at(s: Seq<PageModel>, x: PageModel, j: int)
    requires
        0 <= j <= s.len(),
        forall|k: int| 0 <= k < j ==> #[trigger] s[k].stamp >= x.stamp,
        j < s.len() ==> s[j].stamp < x.stamp,
    ensures
        insert_desc(s, x) == s.take(j) + seq![x] + s.skip(j),
    decreases s.len(),
{
    if j == 0 {
        if s.len() == 0 {
            assert(insert_desc(s, x) =~= s.take(0) + seq![x] + s.skip(0));
        } else {
            assert(insert_desc(s, x) =~= s.take(0) + seq![x] + s.skip(0));
        }
    } else {
        assert(s[0].stamp >= x.stamp);
        let df = s.drop_first();
        assert(forall|k: int| 0 <= k < j - 1 ==> df[k] == s[k + 1]);
        if j - 1 < df.len() {
            assert(df[j - 1] == s[j]);
        }
        lemma_insert_at(df, x, j - 1);
        assert(seq![s[0]] + (df.take(j - 1) + seq![x] + df.skip(j - 1)) =~= s.take(j) + seq![x]
            + s.skip(j));
    }
}

/// Sorts a collection of pages by the instant their date denotes, most
/// recent first; entries with equal dates keep their discovery order.
pub fn sort_pages(v: &Vec<ParsedPage>) -> (r: Vec<ParsedPage>)
    ensures
        models(r@) == sort_desc(models(v@)),
{
    let n = v.len();
    let mut out: Vec<ParsedPage> = Vec::new();
    let mut idx: usize = 0;
    proof {
        assert(models(out@) =~= Seq::<PageModel>::empty());
        assert(models(v@).take(0) =~= Seq::<PageModel>::empty());
        assert(models(out@) == sort_desc(models(v@).take(0)));
    }
    while idx < n
        invariant
            n == v@.len(),
            0 <= idx <= n,
            models(out@) == sort_desc(models(v@).take(idx as int)),
        decreases n - idx,
    {
        let x = v[idx].duplicate();
        let m = out.len();
        let mut j: usize = 0;
        while j < m && out[j].stamp >= x.stamp
            invariant
                m == out@.len(),
                0 <= j <= m,
                forall|k: int| 0 <= k < j ==> #[trigger] models(out@)[k].stamp >= x@.stamp,
            decreases m - j,
        {
            proof {
                assert(models(out@)[j as int].stamp == out@[j as int]@.stamp);
            }
            j = j + 1;
        }
        let ghost before = models(out@);
        proof {
            if j < m {
                assert(models(out@)[j as int].stamp == out@[j as int]@.stamp);
            }
            lemma_insert_at(before, x@, j as int);
        }
        out.insert(j, x);
        proof {
            assert(models(out@) =~= before.take(j as int) + seq![x@] + before.skip(j as int));
            assert(models(v@).take(idx + 1).drop_last() =~= models(v@).take(idx as int));
            assert(models(v@).take(idx + 1).last() == x@);
            assert(models(out@) == sort_desc(models(v@).take(idx + 1)));
        }
        idx = idx + 1;
    }
    proof {
        assert(models(v@).take(n as int) =~= models(v@));
    }
    out
}

/// Aggregation reads nothing but the section's collection and the site
/// configuration: two runs over equal collections plan equal listing
/// pages and feeds, so rebuilding unchanged input reproduces the same
/// artifacts wherever the outside collaborators are themselves
/// deterministic.
pub proof fn lemma_aggregation_deterministic(a: SectionModel, b: SectionModel, cfg: ConfigModel)
    requires
        a.key == b.key,
        a.pages == b.pages,
    ensures
        section_plan_model(a, cfg) == section_plan_model(b, cfg),
{
    assert(a =~= b);
}

/// A planned listing page's `entries` are sorted by date, most recent
/// first.
pub proof fn lemma_plan_entries_sorted(sec: SectionModel, cfg: ConfigModel)
    requires
        section_plan_model(sec, cfg) is Some,
    ensures
        sorted_desc(section_plan_model(sec, cfg).unwrap().entries),
{
    lemma_sort_desc_sorted(sec.pages);
    lemma_non_markers_sorted(sort_desc(sec.pages));
}

/// Filtering by instant and dropping markers commute.
proof fn lemma_filter_non_markers_commute(s: Seq<PageModel>, t: i64)
    ensures
        filter_stamp(non_markers(s), t) == non_markers(filter_stamp(s, t)),
    decreases s.len(),
{
    if s.len() == 0 {
        assert(filter_stamp(non_markers(s), t) =~= non_markers(filter_stamp(s, t)));
    } else {
        lemma_filter_non_markers_commute(s.drop_first(), t);
        let df = s.drop_first();
        if !s[0].section_index {
            assert((seq![s[0]] + non_markers(df))[0] == s[0]);
            assert((seq![s[0]] + non_markers(df)).drop_first() =~= non_markers(df));
            if s[0].stamp == t {
                assert((seq![s[0]] + filter_stamp(df, t))[0] == s[0]);
                assert((seq![s[0]] + filter_stamp(df, t)).drop_first() =~= filter_stamp(df, t));
            }
        } else {
            if s[0].stamp == t {
                assert((seq![s[0]] + filter_stamp(df, t))[0] == s[0]);
                assert((seq![s[0]] + filter_stamp(df, t)).drop_first() =~= filter_stamp(df, t));
            }
        }
    }
}

/// Among a planned listing page's `entries`, documents denoting one
/// instant stand exactly in the order in which the section's non-marker
/// documents of that instant were discovered: the plan never reorders
/// equal dates, however their offsets were written.
pub proof fn lemma_plan_entries_stable(sec: SectionModel, cfg: ConfigModel, t: i64)
    requires
        section_plan_model(sec, cfg) is Some,
    ensures
        filter_stamp(section_plan_model(sec, cfg).unwrap().entries, t) == filter_stamp(
            non_markers(sec.pages),
            t,
        ),
{
    lemma_sort_desc_stable(sec.pages, t);
    lemma_filter_non_markers_commute(sort_desc(sec.pages), t);
    lemma_filter_non_markers_commute(sec.pages, t);
}

/// A feed location with any leading slash removed, making it relative to
/// the output root.
pub open spec fn strip_leading_slash(s: Seq<char>) -> Seq<char> {
    if s.len() > 0 && s[0] == '/' {
        s.drop_first()
    } else {
        s
    }
}

/// Removes a leading slash, if any.
pub fn strip_slash(s: &str) -> (r: String)
    ensures
        r@ == strip_leading_slash(s@),
{
    let n = s.unicode_len();
    if n > 0 && s.get_char(0) == '/' {
        let r = s.substring_char(1, n).to_owned();
        proof {
            assert(s@.subrange(1, n as int) =~= s@.drop_first());
        }
        r
    } else {
        s.to_owned()
    }
}

/// The feed location of a section: the marker's override where it gives
/// one, the site-wide feed path otherwise.
pub open spec fn feed_link_part(cfg: ConfigModel, mk: PageModel) -> Seq<char> {
    if mk.rsslink.len() > 0 {
        mk.rsslink
    } else {
        cfg.rsslink
    }
}

/// Mathematical model of a [`SectionPlan`].
#[verifier::ext_equal]
pub ghost struct SectionPlanModel {
    pub listing_path: Seq<char>,
    pub template: Seq<char>,
    pub marker: PageModel,
    pub entries: Seq<PageModel>,
    pub rss_link: Seq<char>,
    pub rss_title: Seq<char>,
    pub rss_date: Seq<char>,
    pub feed_path: Seq<char>,
}

/// What aggregating one section yields. `None` skips the section: it is
/// a sentinel (key empty or beginning with an underscore), it has no
/// member, or it has no marker document to seed the listing page — a
/// skip is a diagnostic, never an error. Otherwise the members are
/// sorted by date descending (stable), the first marker seeds the
/// listing's template and variables and the feed's title and link, and
/// the non-marker members in sorted order become the `entries` of both
/// the listing page and the feed, whose date is the most recent entry's.
pub open spec fn section_plan_model(sec: SectionModel, cfg: ConfigModel) -> Option<
    SectionPlanModel,
> {
    if sec.pages.len() == 0 || sec.key.len() == 0 || sec.key[0] == '_' {
        None
    } else {
        let sorted = sort_desc(sec.pages);
        match first_marker(sorted) {
            None => None,
            Some(mk) => Some(
                SectionPlanModel {
                    listing_path: sec.key + "/index.html"@,
                    template: mk.template,
                    marker: mk,
                    entries: non_markers(sorted),
                    rss_link: cfg.baseurl + feed_link_part(cfg, mk),
                    rss_title: cfg.title + " - "@ + mk.title,
                    rss_date: feed_date(sorted),
                    feed_path: strip_leading_slash(feed_link_part(cfg, mk)),
                },
            ),
        }
    }
}

/// One section's aggregate artifacts, ready to render: the listing page
/// at `listing_path` through `template` with the marker's variables, and
/// the feed at `feed_path`, both over the same ordered `entries`.
pub struct SectionPlan {
    /// Output file of the listing page, relative to the output root.
    pub listing_path: String,
    /// The marker's resolved listing template; also the path probed for a
    /// collision with an existing static output file before rendering.
    pub template: String,
    /// The section's marker document, for page-level variables.
    pub marker: ParsedPage,
    /// The non-marker members, most recent first.
    pub entries: Vec<ParsedPage>,
    /// Absolute feed link: base URL plus the feed location.
    pub rss_link: String,
    /// Feed title: site title, a dash, the marker's title.
    pub rss_title: String,
    /// Date of the most recent entry, empty where there is none.
    pub rss_date: String,
    /// Output file of the feed, relative to the output root.
    pub feed_path: String,
}

/// Aggregates one section into its listing-page and feed plan, or skips
/// it as [`section_plan_model`] says.
pub fn section_plan(sec: &Section, config: &SiteConfig) -> (r: Option<SectionPlan>)
    ensures
        match r {
            Some(plan) => section_plan_model(sec@, config@) matches Some(m)
                && plan.listing_path@ == m.listing_path && plan.template@ == m.template
                && plan.marker@ == m.marker && models(plan.entries@) == m.entries
                && plan.rss_link@ == m.rss_link && plan.rss_title@ == m.rss_title
                && plan.rss_date@ == m.rss_date && plan.feed_path@ == m.feed_path,
            None => section_plan_model(sec@, config@) is None,
        },
{
    if sec.pages.len() == 0 {
        return None;
    }
    let klen = sec.key.unicode_len();
    if klen == 0 {
        return None;
    }
    if sec.key.get_char(0) == '_' {
        return None;
    }
    let sorted = sort_pages(&sec.pages);
    let ghost ms = models(sorted@);

    // First marker, if any.
    let n = sorted.len();
    let mut i: usize = 0;
    let mut found: Option<usize> = None;
    proof {
        assert(ms.skip(0) =~= ms);
    }
    while found.is_none() && i < n
        invariant
            ms == models(sorted@),
            n == ms.len() && n == sorted@.len(),
            0 <= i <= n,
            match found {
                None => first_marker(ms) == first_marker(ms.skip(i as int)),
                Some(fi) => 0 <= fi < n && ms[fi as int].section_index && first_marker(ms)
                    == Some(ms[fi as int]),
            },
        decreases n - i, (if found.is_none() { 1int } else { 0int }),
    {
        proof {
            assert(ms.skip(i as int)[0] == ms[i as int]);
            assert(ms[i as int] == sorted@[i as int]@);
        }
        if sorted[i].section_index {
            found = Some(i);
        } else {
            proof {
                assert(ms.skip(i as int).drop_first() =~= ms.skip(i + 1));
            }
            i = i + 1;
        }
    }
    let mi = match found {
        None => {
            proof {
                assert(ms.skip(n as int) =~= Seq::<PageModel>::empty());
            }
            return None;
        },
        Some(mi) => mi,
    };
    let marker = sorted[mi].duplicate();

    // Entries: the non-marker members in sorted order.
    let mut entries: Vec<ParsedPage> = Vec::new();
    let mut k: usize = 0;
    proof {
        assert(ms.skip(0) =~= ms);
        assert(models(entries@) =~= Seq::<PageModel>::empty());
    }
    while k < n
        invariant
            ms == models(sorted@),
            n == ms.len() && n == sorted@.len(),
            0 <= k <= n,
            non_markers(ms) == models(entries@) + non_markers(ms.skip(k as int)),
        decreases n - k,
    {
        let ghost e0 = models(entries@);
        proof {
            assert(ms.skip(k as int)[0] == ms[k as int]);
            assert(ms[k as int] == sorted@[k as int]@);
            assert(ms.skip(k as int).drop_first() =~= ms.skip(k + 1));
        }
        if !sorted[k].section_index {
            entries.push(sorted[k].duplicate());
            proof {
                assert(models(entries@) =~= e0.push(ms[k as int]));
                assert(e0 + (seq![ms[k as int]] + non_markers(ms.skip(k + 1))) =~= e0.push(
                    ms[k as int],
                ) + non_markers(ms.skip(k + 1)));
            }
        }
        k = k + 1;
    }
    proof {
        assert(ms.skip(n as int) =~= Seq::<PageModel>::empty());
        assert(non_markers(Seq::<PageModel>::empty()) == Seq::<PageModel>::empty());
        assert(models(entries@) =~= non_markers(ms));
    }

    // Feed seeds from the marker and the configuration.
    let mut rss_title = config.title.clone();
    rss_title.append(" - ");
    rss_title.append(marker.title.as_str());
    let part: &str = if marker.rsslink.as_str().unicode_len() > 0 {
        marker.rsslink.as_str()
    } else {
        config.rsslink.as_str()
    };
    let mut rss_link = config.baseurl.clone();
    rss_link.append(part);
    let feed_path = strip_slash(part);
    let rss_date: String = if entries.len() > 0 {
        entries[0].date.clone()
    } else {
        String::new()
    };
    let mut listing_path = sec.key.clone();
    listing_path.append("/index.html");
    let template = marker.template.clone();
    proof {
        assert(feed_date(ms) == rss_date@);
    }
    Some(
        SectionPlan {
            listing_path,
            template,
            marker,
            entries,
            rss_link,
            rss_title,
            rss_date,
            feed_path,
        },
    )
}

/// The site-wide aggregate: the sorted site collection, the root marker
/// where one was discovered, the feed date, and the feed location.
pub struct SitePlan {
    /// The root marker document, page-level variables of the site index.
    pub root_page: Option<ParsedPage>,
    /// All non-marker documents site-wide, most recent first.
    pub entries: Vec<ParsedPage>,
    /// Date of the most recent entry, empty where there is none.
    pub rss_date: String,
    /// Output file of the site feed, relative to the output root.
    pub feed_path: String,
}

/// Aggregates the site: sorts the site-wide collection by date
/// descending (stable), takes the first document of the root sentinel
/// section as the index page's variables, and derives the site feed's
/// date and location. The index page and site feed are always rendered:
/// a missing root template is fatal, never a skip.
pub fn site_plan(sections: &Sections, config: &SiteConfig) -> (r: SitePlan)
    requires
        sections_wf(sections@),
    ensures
        models(r.entries@) == sort_desc(bucket(sections@, "_pages"@)),
        match r.root_page {
            Some(p) => bucket(sections@, "_index"@).len() > 0 && p@ == bucket(
                sections@,
                "_index"@,
            )[0],
            None => bucket(sections@, "_index"@).len() == 0,
        },
        r.rss_date@ == (if sort_desc(bucket(sections@, "_pages"@)).len() > 0 {
            sort_desc(bucket(sections@, "_pages"@))[0].date
        } else {
            Seq::<char>::empty()
        }),
        r.feed_path@ == strip_leading_slash(config@.rsslink),
{
    let pi = match sections.find("_pages") {
        Some(i) => i,
        None => {
            proof {
                assert(false);
            }
            0
        },
    };
    let entries = sort_pages(&sections.secs[pi].pages);
    proof {
        assert(sections@[pi as int] == sections.secs@[pi as int]@);
        assert(bucket(sections@, "_pages"@) == models(sections.secs@[pi as int].pages@));
    }
    let ri = match sections.find("_index") {
        Some(i) => i,
        None => {
            proof {
                assert(false);
            }
            0
        },
    };
    proof {
        assert(sections@[ri as int] == sections.secs@[ri as int]@);
        assert(bucket(sections@, "_index"@) == models(sections.secs@[ri as int].pages@));
    }
    let root_page: Option<ParsedPage> = if sections.secs[ri].pages.len() > 0 {
        Some(sections.secs[ri].pages[0].duplicate())
    } else {
        None
    };
    let rss_date: String = if entries.len() > 0 {
        proof {
            assert(models(entries@)[0] == entries@[0]@);
        }
        entries[0].date.clone()
    } else {
        String::new()
    };
    let feed_path = strip_slash(config.rsslink.as_str());
    SitePlan { root_page, entries, rss_date, feed_path }
}

} // verus!
