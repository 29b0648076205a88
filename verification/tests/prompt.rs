use mini_langchain::prompt::{PromptTemplate, TemplateError};
use mini_langchain::strmap::StringMap;

fn values(pairs: &[(&str, &str)]) -> StringMap {
    let mut map = StringMap::new();
    for (k, v) in pairs {
        map.insert(k.to_string(), v.to_string());
    }
    map
}

#[test]
fn format_fills_declared_variable() {
    let t = PromptTemplate::new("Hello {name}", vec!["name".to_string()]);
    let out = t.format(&values(&[("name", "World")])).unwrap();
    assert_eq!(out, "Hello World");
}

#[test]
fn format_reports_missing_variable() {
    let t = PromptTemplate::new("Hello {name}", vec!["name".to_string()]);
    match t.format(&StringMap::new()) {
        Err(TemplateError::MissingVariable(name)) => assert_eq!(name, "name"),
        other => panic!("unexpected outcome: {:?}", other),
    }
}

#[test]
fn format_reports_first_missing_variable_in_declaration_order() {
    let t = PromptTemplate::new("{a}{b}{c}", vec!["a".to_string(), "b".to_string(), "c".to_string()]);
    match t.format(&values(&[("a", "1")])) {
        Err(TemplateError::MissingVariable(name)) => assert_eq!(name, "b"),
        other => panic!("unexpected outcome: {:?}", other),
    }
}

#[test]
fn format_leaves_undeclared_placeholders_and_braces() {
    let t = PromptTemplate::new("{x} {name} {y} { } }{", vec!["name".to_string()]);
    let out = t.format(&values(&[("name", "N"), ("x", "ignored")])).unwrap();
    assert_eq!(out, "{x} N {y} { } }{");
}

#[test]
fn format_ignores_extra_inputs() {
    let t = PromptTemplate::new("plain", vec![]);
    let out = t.format(&values(&[("unused", "v")])).unwrap();
    assert_eq!(out, "plain");
}

#[test]
fn format_fills_every_occurrence() {
    let t = PromptTemplate::new("{a}-{a}-{b}", vec!["a".to_string(), "b".to_string()]);
    let out = t.format(&values(&[("a", "x"), ("b", "y")])).unwrap();
    assert_eq!(out, "x-x-y");
}

#[test]
fn format_does_not_rescan_substituted_values() {
    let t = PromptTemplate::new("{a} {b}", vec!["a".to_string(), "b".to_string()]);
    let out = t.format(&values(&[("a", "{b}"), ("b", "B")])).unwrap();
    assert_eq!(out, "{b} B");
}

#[test]
fn format_handles_non_ascii_text() {
    let t = PromptTemplate::new("héllo {naïve} ✓", vec!["naïve".to_string()]);
    let out = t.format(&values(&[("naïve", "wörld")])).unwrap();
    assert_eq!(out, "héllo wörld ✓");
}

#[test]
fn format_unterminated_placeholder_is_kept() {
    let t = PromptTemplate::new("Hello {name", vec!["name".to_string()]);
    let out = t.format(&values(&[("name", "World")])).unwrap();
    assert_eq!(out, "Hello {name");
}

#[test]
fn declares_tells_declared_from_undeclared() {
    let t = PromptTemplate::new("{a}", vec!["a".to_string()]);
    assert!(t.declares(&"a".to_string()));
    assert!(!t.declares(&"b".to_string()));
    assert_eq!(t.template(), "{a}");
    assert_eq!(t.variables().len(), 1);
}

#[test]
fn is_consistent_tells_whether_every_variable_occurs() {
    let used = PromptTemplate::new("{a} and {b}", vec!["a".to_string(), "b".to_string()]);
    assert!(used.is_consistent());
    let unused = PromptTemplate::new("{a} and b", vec!["a".to_string(), "b".to_string()]);
    assert!(!unused.is_consistent());
    let none = PromptTemplate::new("", vec![]);
    assert!(none.is_consistent());
    let at_end = PromptTemplate::new("x{a}", vec!["a".to_string()]);
    assert!(at_end.is_consistent());
}

#[test]
fn format_prefers_the_earlier_declared_variable() {
    let t = PromptTemplate::new("{a}b}", vec!["a}b".to_string(), "a".to_string()]);
    let mut map = StringMap::new();
    map.insert("a}b".to_string(), "long".to_string());
    map.insert("a".to_string(), "short".to_string());
    assert_eq!(t.format(&map).unwrap(), "long");
    let t = PromptTemplate::new("{a}b}", vec!["a".to_string(), "a}b".to_string()]);
    assert_eq!(t.format(&map).unwrap(), "shortb}");
}

#[test]
fn format_with_placeholders_as_values_gives_the_template_back() {
    let t = PromptTemplate::new("x {a} y {b} {c}", vec!["a".to_string(), "b".to_string()]);
    let out = t.format(&values(&[("a", "{a}"), ("b", "{b}")])).unwrap();
    assert_eq!(out, "x {a} y {b} {c}");
}

#[test]
fn kept_text_and_a_value_may_join_into_a_placeholder() {
    let t = PromptTemplate::new("{x{a}}", vec!["a".to_string(), "xb".to_string()]);
    let out = t.format(&values(&[("a", "b"), ("xb", "never used")])).unwrap();
    assert_eq!(out, "{xb}");
}

#[test]
fn rendering_grows_by_values_less_placeholders() {
    let template = "a {x} b {yy} {x} {z}";
    let t = PromptTemplate::new(template, vec!["x".to_string(), "yy".to_string()]);
    let out = t.format(&values(&[("x", "12345"), ("yy", "")])).unwrap();
    assert_eq!(out, "a 12345 b  12345 {z}");
    let growth = (5 - 3) + (0 - 4) + (5 - 3);
    assert_eq!(out.chars().count() as i64, template.chars().count() as i64 + growth);
}

#[test]
fn no_brace_is_left_where_every_brace_opens_a_declared_placeholder() {
    let t = PromptTemplate::new("{a}-{b}-{a}", vec!["a".to_string(), "b".to_string()]);
    let out = t.format(&values(&[("a", "b}"), ("b", "a")])).unwrap();
    assert_eq!(out, "b}-a-b}");
    assert!(!out.contains('{'));
}
