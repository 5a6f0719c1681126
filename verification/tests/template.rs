use static_format::Template;

fn slots(text: &str) -> Vec<String> {
    let template = Template::parse(text);
    template.iter().cloned().collect()
}

#[test]
fn cuts_at_each_marker() {
    assert_eq!(slots("hello {} world {}"), vec!["hello ", " world ", ""]);
}

#[test]
fn empty_text_is_one_empty_segment() {
    assert_eq!(slots(""), vec![""]);
}

#[test]
fn text_without_marker_is_one_segment() {
    assert_eq!(slots("no marker here"), vec!["no marker here"]);
}

#[test]
fn marker_alone() {
    assert_eq!(slots("{}"), vec!["", ""]);
}

#[test]
fn markers_side_by_side() {
    assert_eq!(slots("{}{}"), vec!["", "", ""]);
    assert_eq!(slots("a{}{}b"), vec!["a", "", "b"]);
}

#[test]
fn marker_at_either_end() {
    assert_eq!(slots("{}middle{}"), vec!["", "middle", ""]);
}

#[test]
fn doubled_braces_do_not_escape() {
    assert_eq!(slots("{{}}"), vec!["{", "}"]);
    assert_eq!(slots("{{}"), vec!["{", ""]);
    assert_eq!(slots("{}}"), vec!["", "}"]);
}

#[test]
fn lone_braces_are_text() {
    assert_eq!(slots("{"), vec!["{"]);
    assert_eq!(slots("}"), vec!["}"]);
    assert_eq!(slots("}{"), vec!["}{"]);
    assert_eq!(slots("{ }"), vec!["{ }"]);
    assert_eq!(slots("{0}"), vec!["{0}"]);
}

#[test]
fn text_beyond_ascii() {
    assert_eq!(slots("é{}ü{}日本"), vec!["é", "ü", "日本"]);
}

#[test]
fn agrees_with_split() {
    for text in [
        "",
        "{}",
        "a",
        "{}{}{}",
        "x{}y{}z",
        "{{}}{}",
        "}{}{",
        "{{{}}}",
        " {} {} ",
        "ß{}{}",
    ] {
        let expected: Vec<String> = text.split("{}").map(String::from).collect();
        assert_eq!(slots(text), expected, "for {:?}", text);
    }
}

#[test]
fn one_segment_more_than_markers() {
    for (text, markers) in [("", 0), ("abc", 0), ("{}", 1), ("a{}b{}c", 2), ("{}{}{}{}", 4)] {
        assert_eq!(Template::parse(text).len(), markers + 1);
    }
}

#[test]
fn joining_with_markers_gives_the_text_back() {
    for text in ["", "{}", "a{}b", "{{}}", "{}{}x", "no marker"] {
        assert_eq!(slots(text).join("{}"), text);
    }
}

#[test]
fn segments_are_read_like_a_list() {
    let template = Template::parse("a{}b");
    assert_eq!(template.len(), 2);
    assert_eq!(template[0], "a");
    assert_eq!(template[1], "b");
    assert!(!template.is_empty());
}
