use nextgen::engine::expand_macros;
use nextgen::page::BuildError;
use nextgen::stats::Stats;
use nextgen::text::trim_text;

#[test]
fn macro_pass_renders_through_the_engine() {
    let mut engine = tera::Tera::default();
    engine
        .add_raw_template("macros.html", "{% macro hello() %}HI{% endmacro %}")
        .unwrap();
    let out = expand_macros(&mut engine, "a.md", "say {{ macros::hello() }}").unwrap();
    assert_eq!(out, "say HI");
}

#[test]
fn macro_pass_leaves_plain_text_alone() {
    let mut engine = tera::Tera::default();
    engine.add_raw_template("macros.html", "").unwrap();
    let out = expand_macros(&mut engine, "b.md", "plain body").unwrap();
    assert_eq!(out, "plain body");
}

#[test]
fn engine_failure_is_reported() {
    // No macros.html registered: the injected import cannot resolve.
    let mut engine = tera::Tera::default();
    let r = expand_macros(&mut engine, "c.md", "body");
    assert!(matches!(r, Err(BuildError::TemplateFailure)));
}

#[test]
fn trim_strips_surrounding_whitespace() {
    assert_eq!(trim_text("  <p>hi</p> \n\t"), "<p>hi</p>");
    assert_eq!(trim_text(" \n\t "), "");
    assert_eq!(trim_text("a b"), "a b");
    assert_eq!(trim_text(""), "");
}

#[test]
fn summary_lines_are_exact() {
    let mut st = Stats::new();
    st.pages = 12;
    st.sections = 3;
    st.rss = 4;
    st.files = 250;
    st.templates = 7;
    let lines = st.summary();
    assert_eq!(
        lines,
        vec![
            "+-------------+-----+".to_string(),
            "Pages         | 12".to_string(),
            "Section files | 3".to_string(),
            "RSS files     | 4".to_string(),
            "Static files  | 250".to_string(),
            "Templates     | 7".to_string(),
        ]
    );
}
