use nextgen::classify::build_page;
use nextgen::page::FrontMatter;
use nextgen::sections::Sections;

fn fm(title: &str) -> FrontMatter {
    FrontMatter {
        date: "2020-03-05T10:00:00Z".to_string(),
        title: title.to_string(),
        description: None,
        draft: false,
        template: None,
        rsslink: None,
        tags: Vec::new(),
    }
}

fn registry() -> Sections {
    let mut s = Sections::new();
    s.register("blog");
    s.register("blog/sub");
    s.register("notes");
    s
}

#[test]
fn post_in_section_gets_section_template() {
    let sections = registry();
    let plan = build_page(&sections, "blog/post1.md", fm("p"), "x", "x")
        .unwrap()
        .unwrap();
    assert_eq!(plan.page.section, "blog");
    assert_eq!(plan.page.template, "blog_page.html");
    assert_eq!(plan.page.link, "blog/post1/");
    assert_eq!(plan.out_path, "blog/post1/index.html");
    assert!(!plan.skip_write);
    assert!(!plan.page.section_index);
}

#[test]
fn longest_section_prefix_wins() {
    let sections = registry();
    let plan = build_page(&sections, "blog/sub/deep.md", fm("p"), "x", "x")
        .unwrap()
        .unwrap();
    assert_eq!(plan.page.section, "blog/sub");
    assert_eq!(plan.page.template, "blog/sub_page.html");
}

#[test]
fn template_override_replaces_basename() {
    let sections = registry();
    let mut f = fm("p");
    f.template = Some("special.html".to_string());
    let plan = build_page(&sections, "blog/post1.md", f, "x", "x")
        .unwrap()
        .unwrap();
    assert_eq!(plan.page.template, "blog_special.html");
    let mut g = fm("p");
    g.template = Some("special.html".to_string());
    let plan2 = build_page(&sections, "stray.md", g, "x", "x").unwrap().unwrap();
    assert_eq!(plan2.page.template, "special.html");
}

#[test]
fn directory_marker_is_flagged_and_not_written() {
    let sections = registry();
    let mut f = fm("Blog");
    f.rsslink = Some("/blog/feed.xml".to_string());
    let plan = build_page(&sections, "blog/_index.md", f, "x", "x")
        .unwrap()
        .unwrap();
    assert!(plan.page.section_index);
    assert!(plan.skip_write);
    assert_eq!(plan.page.section, "blog");
    assert_eq!(plan.page.template, "blog_index.html");
    assert_eq!(plan.out_path, "blog/index.html");
    assert_eq!(plan.page.link, "blog/");
    assert_eq!(plan.page.rsslink, "/blog/feed.xml");
}

#[test]
fn root_marker_feeds_the_site_index() {
    let sections = registry();
    let plan = build_page(&sections, "_index.md", fm("Home"), "x", "x")
        .unwrap()
        .unwrap();
    assert!(plan.skip_write);
    assert!(plan.page.section_index);
    assert_eq!(plan.page.section, "_index");
    assert_eq!(plan.page.template, "index.html");
    assert_eq!(plan.out_path, "index.html");
    assert_eq!(plan.page.link, "");
    assert_eq!(plan.page.rsslink, "");
}

#[test]
fn unmatched_document_falls_back_to_default_section() {
    let sections = registry();
    let plan = build_page(&sections, "misc/orphan.md", fm("p"), "x", "x")
        .unwrap()
        .unwrap();
    assert_eq!(plan.page.section, "_default");
    assert_eq!(plan.page.template, "page.html");
    assert_eq!(plan.out_path, "misc/orphan/index.html");
}

#[test]
fn rsslink_only_meaningful_on_markers() {
    let sections = registry();
    let mut f = fm("p");
    f.rsslink = Some("/elsewhere.xml".to_string());
    let plan = build_page(&sections, "blog/post1.md", f, "x", "x")
        .unwrap()
        .unwrap();
    assert_eq!(plan.page.rsslink, "");
}

#[test]
fn registry_deduplicates_keys() {
    let mut s = Sections::new();
    s.register("blog");
    let before = s.count();
    s.register("blog");
    assert_eq!(s.count(), before);
    assert!(s.find("blog").is_some());
    assert!(s.find("missing").is_none());
}
