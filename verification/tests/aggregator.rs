use nextgen::aggregate::{section_plan, site_plan};
use nextgen::classify::build_page;
use nextgen::page::{FrontMatter, SiteConfig};
use nextgen::sections::Sections;

fn config() -> SiteConfig {
    SiteConfig {
        baseurl: "https://example.org".to_string(),
        title: "Site".to_string(),
        rsslink: "/rss.xml".to_string(),
        blueprint: "bp".to_string(),
        author_name: "A. Author".to_string(),
        verbose: false,
    }
}

fn fm(date: &str, title: &str) -> FrontMatter {
    FrontMatter {
        date: date.to_string(),
        title: title.to_string(),
        description: None,
        draft: false,
        template: None,
        rsslink: None,
        tags: Vec::new(),
    }
}

fn place(sections: &mut Sections, path: &str, f: FrontMatter) {
    let plan = build_page(sections, path, f, "body", "body").unwrap().unwrap();
    sections.place_page(plan.page);
}

/// The blog scenario: a marker and two posts produce a listing with the
/// newer post first and a feed dated by the newest post.
#[test]
fn blog_listing_orders_posts_newest_first() {
    let mut s = Sections::new();
    s.register("blog");
    place(&mut s, "blog/_index.md", fm("2020-01-01T00:00:00Z", "Blog"));
    place(&mut s, "blog/post1.md", fm("2021-01-01T00:00:00Z", "post1"));
    place(&mut s, "blog/post2.md", fm("2022-01-01T00:00:00Z", "post2"));
    let i = s.find("blog").unwrap();
    let plan = section_plan(&s.secs[i], &config()).unwrap();
    assert_eq!(plan.listing_path, "blog/index.html");
    assert_eq!(plan.template, "blog_index.html");
    assert_eq!(plan.marker.title, "Blog");
    let titles: Vec<&str> = plan.entries.iter().map(|p| p.title.as_str()).collect();
    assert_eq!(titles, vec!["post2", "post1"]);
    assert_eq!(plan.rss_date, "2022-01-01T00:00:00Z");
    assert_eq!(plan.entries[0].dateshort, "2022-01-01");
    assert_eq!(plan.rss_title, "Site - Blog");
    assert_eq!(plan.rss_link, "https://example.org/rss.xml");
    assert_eq!(plan.feed_path, "rss.xml");
}

#[test]
fn marker_feed_override_sets_feed_location() {
    let mut s = Sections::new();
    s.register("blog");
    let mut marker = fm("2020-01-01T00:00:00Z", "Blog");
    marker.rsslink = Some("/blog/feed.xml".to_string());
    place(&mut s, "blog/_index.md", marker);
    place(&mut s, "blog/post1.md", fm("2021-01-01T00:00:00Z", "post1"));
    let i = s.find("blog").unwrap();
    let plan = section_plan(&s.secs[i], &config()).unwrap();
    assert_eq!(plan.rss_link, "https://example.org/blog/feed.xml");
    assert_eq!(plan.feed_path, "blog/feed.xml");
}

/// Ordering goes by the instant a date denotes, not by its text: an
/// entry whose timestamp is written with a large positive offset denotes
/// an earlier instant than a Zulu timestamp whose text compares smaller.
#[test]
fn ordering_is_by_instant_not_by_text() {
    let mut s = Sections::new();
    s.register("blog");
    place(&mut s, "blog/_index.md", fm("2020-01-01T00:00:00Z", "Blog"));
    // 3000-01-01T00:00:00+23:59 is the instant 2999-12-31T00:01:00Z,
    // almost a day before 2999-12-31T23:59:59Z.
    place(&mut s, "blog/early.md", fm("3000-01-01T00:00:00+23:59", "early_instant"));
    place(&mut s, "blog/late.md", fm("2999-12-31T23:59:59Z", "late_instant"));
    let i = s.find("blog").unwrap();
    let plan = section_plan(&s.secs[i], &config()).unwrap();
    let titles: Vec<&str> = plan.entries.iter().map(|p| p.title.as_str()).collect();
    assert_eq!(titles, vec!["late_instant", "early_instant"]);
    assert_eq!(plan.rss_date, "2999-12-31T23:59:59Z");
}

/// One instant written with two different offsets: the two entries are
/// equally dated, so they keep discovery order.
#[test]
fn equal_instants_with_different_offsets_keep_discovery_order() {
    let mut s = Sections::new();
    s.register("blog");
    place(&mut s, "blog/_index.md", fm("2020-01-01T00:00:00Z", "Blog"));
    place(&mut s, "blog/a.md", fm("2021-06-01T14:00:00+02:00", "first"));
    place(&mut s, "blog/b.md", fm("2021-06-01T12:00:00Z", "second"));
    let i = s.find("blog").unwrap();
    let plan = section_plan(&s.secs[i], &config()).unwrap();
    let titles: Vec<&str> = plan.entries.iter().map(|p| p.title.as_str()).collect();
    assert_eq!(titles, vec!["first", "second"]);
}

/// Equal dates keep discovery order: the sort is stable.
#[test]
fn equal_dates_keep_discovery_order() {
    let mut s = Sections::new();
    s.register("notes");
    place(&mut s, "notes/_index.md", fm("2020-01-01T00:00:00Z", "Notes"));
    place(&mut s, "notes/a.md", fm("2021-06-01T12:00:00Z", "first"));
    place(&mut s, "notes/b.md", fm("2021-06-01T12:00:00Z", "second"));
    place(&mut s, "notes/c.md", fm("2021-06-01T12:00:00Z", "third"));
    let i = s.find("notes").unwrap();
    let plan = section_plan(&s.secs[i], &config()).unwrap();
    let titles: Vec<&str> = plan.entries.iter().map(|p| p.title.as_str()).collect();
    assert_eq!(titles, vec!["first", "second", "third"]);
}

/// A non-marker document lands in exactly one section bucket and exactly
/// once in the site-wide bucket.
#[test]
fn document_joins_exactly_two_collections() {
    let mut s = Sections::new();
    s.register("blog");
    place(&mut s, "blog/post1.md", fm("2021-01-01T00:00:00Z", "post1"));
    let mut total = 0;
    for sec in &s.secs {
        let here = sec.pages.iter().filter(|p| p.title == "post1").count();
        match sec.key.as_str() {
            "blog" => assert_eq!(here, 1),
            "_pages" => assert_eq!(here, 1),
            _ => assert_eq!(here, 0),
        }
        total += here;
    }
    assert_eq!(total, 2);
}

/// A marker joins only its own section, never the site-wide bucket.
#[test]
fn marker_stays_out_of_site_collection() {
    let mut s = Sections::new();
    s.register("blog");
    place(&mut s, "blog/_index.md", fm("2020-01-01T00:00:00Z", "Blog"));
    let pi = s.find("_pages").unwrap();
    assert!(s.secs[pi].pages.is_empty());
}

/// A draft produces no plan and so reaches no collection.
#[test]
fn draft_is_absent_from_every_collection() {
    let mut s = Sections::new();
    s.register("blog");
    let mut f = fm("2021-01-01T00:00:00Z", "hidden");
    f.draft = true;
    let r = build_page(&s, "blog/hidden.md", f, "body", "body").unwrap();
    assert!(r.is_none());
    for sec in &s.secs {
        assert!(sec.pages.iter().all(|p| p.title != "hidden"));
    }
}

#[test]
fn sections_without_marker_or_members_are_skipped() {
    let mut s = Sections::new();
    s.register("blog");
    let cfg = config();
    // Empty section: skipped.
    let i = s.find("blog").unwrap();
    assert!(section_plan(&s.secs[i], &cfg).is_none());
    // Members but no marker: skipped.
    place(&mut s, "blog/post1.md", fm("2021-01-01T00:00:00Z", "post1"));
    let i = s.find("blog").unwrap();
    assert!(section_plan(&s.secs[i], &cfg).is_none());
    // Sentinel sections: skipped even when they hold pages.
    let pi = s.find("_pages").unwrap();
    assert!(section_plan(&s.secs[pi], &cfg).is_none());
}

#[test]
fn site_plan_sorts_and_dates_the_site_feed() {
    let mut s = Sections::new();
    s.register("blog");
    place(&mut s, "_index.md", fm("2019-01-01T00:00:00Z", "Home"));
    place(&mut s, "blog/post1.md", fm("2021-01-01T00:00:00Z", "post1"));
    place(&mut s, "stray.md", fm("2023-05-05T00:00:00Z", "stray"));
    place(&mut s, "blog/post2.md", fm("2022-01-01T00:00:00Z", "post2"));
    let plan = site_plan(&s, &config());
    let titles: Vec<&str> = plan.entries.iter().map(|p| p.title.as_str()).collect();
    assert_eq!(titles, vec!["stray", "post2", "post1"]);
    assert_eq!(plan.rss_date, "2023-05-05T00:00:00Z");
    assert_eq!(plan.feed_path, "rss.xml");
    assert_eq!(plan.root_page.unwrap().title, "Home");
}

#[test]
fn site_plan_without_root_marker() {
    let mut s = Sections::new();
    s.register("blog");
    place(&mut s, "blog/post1.md", fm("2021-01-01T00:00:00Z", "post1"));
    let plan = site_plan(&s, &config());
    assert!(plan.root_page.is_none());
    assert_eq!(plan.entries.len(), 1);
}
