use crawler::rules::AttributeSpec;
use crawler::table::ResultTable;

fn sorted(mut list: Vec<String>) -> Vec<String> {
    list.sort();
    list
}

fn strings(items: &[&str]) -> Vec<String> {
    items.iter().map(|s| s.to_string()).collect()
}

#[test]
fn new_table_has_no_keys() {
    let table = ResultTable::new();
    assert_eq!(table.selectors(), Vec::<String>::new());
    assert_eq!(table.attributes("a"), None);
    assert_eq!(table.values("a", "href"), None);
}

#[test]
fn declared_bucket_is_present_and_empty() {
    let mut table = ResultTable::new();
    table.declare("a", "href");
    assert_eq!(table.selectors(), strings(&["a"]));
    assert_eq!(table.attributes("a"), Some(strings(&["href"])));
    assert_eq!(table.values("a", "href"), Some(Vec::new()));
    assert_eq!(table.values("a", "title"), None);
    assert_eq!(table.values("b", "href"), None);
}

#[test]
fn declared_selector_without_attributes_is_a_key() {
    let mut table = ResultTable::new();
    table.declare_selector("div");
    assert_eq!(table.selectors(), strings(&["div"]));
    assert_eq!(table.attributes("div"), Some(Vec::new()));
    table.declare_selector("div");
    assert_eq!(table.selectors(), strings(&["div"]));
}

#[test]
fn declaring_again_keeps_the_values() {
    let mut table = ResultTable::new();
    table.declare("a", "href");
    table.record("a", "href", "x".to_string());
    table.declare("a", "href");
    table.declare_selector("a");
    assert_eq!(table.values("a", "href"), Some(strings(&["x"])));
    assert_eq!(table.attributes("a"), Some(strings(&["href"])));
}

#[test]
fn same_selector_gathers_attributes_of_all_its_rules() {
    let mut table = ResultTable::new();
    table.declare("a", "href");
    table.declare("p", "TextContent");
    table.declare("a", "title");
    assert_eq!(table.selectors(), strings(&["a", "p"]));
    assert_eq!(table.attributes("a"), Some(strings(&["href", "title"])));
    assert_eq!(table.attributes("p"), Some(strings(&["TextContent"])));
}

#[test]
fn recorded_value_appears_once() {
    let mut table = ResultTable::new();
    table.declare("a", "href");
    table.record("a", "href", "x".to_string());
    table.record("a", "href", "y".to_string());
    table.record("a", "href", "x".to_string());
    table.record("a", "href", "y".to_string());
    table.record("a", "href", "x".to_string());
    assert_eq!(table.values("a", "href"), Some(strings(&["x", "y"])));
}

#[test]
fn buckets_do_not_mix() {
    let mut table = ResultTable::new();
    table.declare("a", "href");
    table.declare("a", "title");
    table.declare("b", "href");
    table.record("a", "href", "1".to_string());
    table.record("a", "title", "2".to_string());
    table.record("b", "href", "3".to_string());
    assert_eq!(table.values("a", "href"), Some(strings(&["1"])));
    assert_eq!(table.values("a", "title"), Some(strings(&["2"])));
    assert_eq!(table.values("b", "href"), Some(strings(&["3"])));
}

#[test]
fn value_for_an_undeclared_bucket_is_not_kept() {
    let mut table = ResultTable::new();
    table.declare("a", "href");
    table.record("a", "title", "lost".to_string());
    table.record("b", "href", "lost".to_string());
    assert_eq!(sorted(table.selectors()), strings(&["a"]));
    assert_eq!(table.attributes("a"), Some(strings(&["href"])));
    assert_eq!(table.values("a", "href"), Some(Vec::new()));
}

#[test]
fn empty_text_is_a_value_like_any_other() {
    let mut table = ResultTable::new();
    table.declare("p", "TextContent");
    table.record("p", "TextContent", String::new());
    table.record("p", "TextContent", String::new());
    assert_eq!(table.values("p", "TextContent"), Some(strings(&[""])));
}

#[test]
fn reserved_names_select_their_mode() {
    assert!(matches!(AttributeSpec::parse("TextContent"), AttributeSpec::TextContent));
    assert!(matches!(AttributeSpec::parse("HtmlContent"), AttributeSpec::HtmlContent));
    assert!(matches!(AttributeSpec::parse("InnerHtml"), AttributeSpec::InnerHtml));
    assert!(matches!(AttributeSpec::parse("Html2Text"), AttributeSpec::Html2Text));
}

#[test]
fn other_names_are_literal_attributes() {
    for name in ["href", "textcontent", "TextContent ", "#TextContent", "", "data-id"] {
        match AttributeSpec::parse(name) {
            AttributeSpec::Literal(text) => assert_eq!(text, name),
            other => panic!("{:?} read as {:?}", name, other),
        }
    }
}

#[test]
fn specification_gives_its_name_back() {
    for name in ["TextContent", "HtmlContent", "InnerHtml", "Html2Text", "href", ""] {
        assert_eq!(AttributeSpec::parse(name).name(), name);
    }
}
