use nextgen::classify::build_page;
use nextgen::page::{BuildError, FrontMatter};
use nextgen::sections::Sections;
use nextgen::text::split_document;

fn fm(date: &str, title: &str) -> FrontMatter {
    FrontMatter {
        date: date.to_string(),
        title: title.to_string(),
        description: None,
        draft: false,
        template: None,
        rsslink: None,
        tags: Vec::new(),
    }
}

#[test]
fn split_three_parts() {
    let r = split_document("pre+++meta+++body").unwrap();
    assert_eq!(r.0, "meta");
    assert_eq!(r.1, "body");
}

#[test]
fn split_empty_preamble() {
    let r = split_document("+++\ntitle = \"x\"\n+++\nhello").unwrap();
    assert_eq!(r.0, "\ntitle = \"x\"\n");
    assert_eq!(r.1, "\nhello");
}

#[test]
fn split_too_few_delimiters_is_no_document() {
    assert!(split_document("no delimiters here").is_none());
    assert!(split_document("one+++only").is_none());
}

#[test]
fn split_body_stops_at_third_delimiter() {
    let r = split_document("+++m+++b+++rest").unwrap();
    assert_eq!(r.0, "m");
    assert_eq!(r.1, "b");
}

#[test]
fn reading_time_of_400_words_is_two() {
    let sections = Sections::new();
    let body = vec!["w"; 400].join(" ");
    let plan = build_page(&sections, "a.md", fm("2020-03-05T10:00:00Z", "t"), &body, &body)
        .unwrap()
        .unwrap();
    assert_eq!(plan.page.readingtime, "2");
}

#[test]
fn reading_time_of_single_word_is_one() {
    let sections = Sections::new();
    let plan = build_page(&sections, "a.md", fm("2020-03-05T10:00:00Z", "t"), "word", "word")
        .unwrap()
        .unwrap();
    assert_eq!(plan.page.readingtime, "1");
}

#[test]
fn reading_time_of_empty_body_is_one() {
    let sections = Sections::new();
    let plan = build_page(&sections, "a.md", fm("2020-03-05T10:00:00Z", "t"), "", "")
        .unwrap()
        .unwrap();
    assert_eq!(plan.page.readingtime, "1");
}

#[test]
fn reading_time_rounds_up() {
    let sections = Sections::new();
    let body = vec!["w"; 401].join(" ");
    let plan = build_page(&sections, "a.md", fm("2020-03-05T10:00:00Z", "t"), &body, &body)
        .unwrap()
        .unwrap();
    assert_eq!(plan.page.readingtime, "3");
}

#[test]
fn date_projections_round_trip() {
    let sections = Sections::new();
    let plan = build_page(&sections, "a.md", fm("2020-03-05T10:00:00Z", "t"), "x", "x")
        .unwrap()
        .unwrap();
    assert_eq!(plan.page.date, "2020-03-05T10:00:00Z");
    assert_eq!(plan.page.datefull, "Thu Mar 05 2020");
    assert_eq!(plan.page.dateshort, "2020-03-05");
    assert_eq!(plan.page.year, "2020");
}

#[test]
fn date_projections_with_offset() {
    let sections = Sections::new();
    let plan = build_page(&sections, "a.md", fm("1996-12-19T16:39:57-08:00", "t"), "x", "x")
        .unwrap()
        .unwrap();
    assert_eq!(plan.page.date, "1996-12-19T16:39:57-08:00");
    assert_eq!(plan.page.datefull, "Thu Dec 19 1996");
    assert_eq!(plan.page.dateshort, "1996-12-19");
    assert_eq!(plan.page.year, "1996");
}

#[test]
fn bad_date_is_fatal() {
    let sections = Sections::new();
    let r = build_page(&sections, "a.md", fm("not a date", "t"), "x", "x");
    assert!(matches!(r, Err(BuildError::BadDate)));
    let r2 = build_page(&sections, "a.md", fm("2021-01-01", "t"), "x", "x");
    assert!(matches!(r2, Err(BuildError::BadDate)));
}

#[test]
fn draft_yields_no_plan() {
    let sections = Sections::new();
    let mut f = fm("2020-03-05T10:00:00Z", "t");
    f.draft = true;
    let r = build_page(&sections, "a.md", f, "x", "x").unwrap();
    assert!(r.is_none());
    // A draft is dropped before its date is even parsed.
    let mut g = fm("not a date", "t");
    g.draft = true;
    assert!(build_page(&sections, "a.md", g, "x", "x").unwrap().is_none());
}

#[test]
fn markdown_body_is_converted() {
    let sections = Sections::new();
    let plan = build_page(
        &sections,
        "a.md",
        fm("2020-03-05T10:00:00Z", "t"),
        "# Title",
        "# Title",
    )
    .unwrap()
    .unwrap();
    assert_eq!(plan.page.content, "<h1>Title</h1>\n");
}

#[test]
fn document_text_to_page() {
    let text = "+++\ndate = 2022-01-01T00:00:00Z\ntitle = \"Hi\"\n+++\n# Hello";
    let (meta, body) = split_document(text).unwrap();
    let table: toml::Table = toml::from_str(&meta).unwrap();
    let f = FrontMatter {
        date: table.get("date").unwrap().as_datetime().unwrap().to_string(),
        title: table.get("title").unwrap().as_str().unwrap().to_string(),
        description: None,
        draft: false,
        template: None,
        rsslink: None,
        tags: Vec::new(),
    };
    let sections = Sections::new();
    let plan = build_page(&sections, "hi.md", f, &body, &body).unwrap().unwrap();
    assert_eq!(plan.page.title, "Hi");
    assert_eq!(plan.page.dateshort, "2022-01-01");
    assert_eq!(plan.page.content, "<h1>Hello</h1>\n");
    assert_eq!(plan.out_path, "hi/index.html");
}

#[test]
fn metadata_carries_over() {
    let sections = Sections::new();
    let mut f = fm("2020-03-05T10:00:00Z", "A Title");
    f.description = Some("desc".to_string());
    f.tags = vec!["a".to_string(), "b".to_string()];
    let plan = build_page(&sections, "a.md", f, "x", "x").unwrap().unwrap();
    assert_eq!(plan.page.title, "A Title");
    assert_eq!(plan.page.description, "desc");
    assert_eq!(plan.page.tags, vec!["a".to_string(), "b".to_string()]);
}
