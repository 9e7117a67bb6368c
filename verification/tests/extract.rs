use wudao::dom::{Attr, DomNode};
use wudao::extract::{extract, ExtractError, Word};
use wudao::parse::extract_from_html;

fn text(s: &str) -> DomNode {
    DomNode::Text(s.to_string())
}

fn elem(tag: &str, attrs: &[(&str, &str)], children: Vec<DomNode>) -> DomNode {
    DomNode::Elem {
        tag: tag.to_string(),
        attrs: attrs
            .iter()
            .map(|(k, v)| Attr { key: k.to_string(), value: v.to_string() })
            .collect(),
        children,
    }
}

fn page(children: Vec<DomNode>) -> DomNode {
    elem("html", &[], vec![elem("body", &[], children)])
}

#[test]
fn full_record_from_tree() {
    let doc = page(vec![elem(
        "div",
        &[("class", "results-content")],
        vec![
            elem("span", &[("class", "keyword")], vec![text("hello")]),
            elem(
                "div",
                &[("class", "baav")],
                vec![elem(
                    "span",
                    &[("class", "pronounce")],
                    vec![text(" h \u{259} \u{2c8} l o\u{28a} ")],
                )],
            ),
            elem(
                "div",
                &[("class", "trans-container")],
                vec![elem("ul", &[], vec![elem("li", &[], vec![text(" interj. hello ")])])],
            ),
        ],
    )]);
    let w = extract(&doc).unwrap();
    assert_eq!(w.keyword, "hello");
    assert_eq!(w.phonetics, vec!["h\u{259}\u{2c8}lo\u{28a}".to_string()]);
    assert_eq!(w.translations, vec!["interj. hello".to_string()]);
    assert!(w.sentences.is_empty());
}

#[test]
fn full_record_from_html() {
    let html = "<div class=\"results-content\">\
                <span class=\"keyword\">hello</span>\
                <div class=\"baav\"><span class=\"pronounce\"> h \u{259} \u{2c8} l o\u{28a} </span></div>\
                <div class=\"trans-container\"><ul><li> interj. hello </li></ul></div>\
                </div>";
    let w = extract_from_html(html).unwrap();
    assert_eq!(w.keyword, "hello");
    assert_eq!(w.phonetics, vec!["h\u{259}\u{2c8}lo\u{28a}".to_string()]);
    assert_eq!(w.translations, vec!["interj. hello".to_string()]);
    assert!(w.sentences.is_empty());
}

#[test]
fn no_region_is_not_found() {
    let r = extract_from_html("<html><body><p>nothing here</p></body></html>");
    assert_eq!(r.unwrap_err(), ExtractError::NotFound);
}

#[test]
fn no_region_is_not_found_tree() {
    let doc = page(vec![elem("div", &[("class", "other")], vec![text("x")])]);
    let r = extract(&doc);
    assert_eq!(r.unwrap_err(), ExtractError::NotFound);
}

#[test]
fn blank_keyword_is_malformed() {
    let doc = page(vec![elem(
        "div",
        &[("class", "results-content")],
        vec![elem("span", &[("class", "keyword")], vec![text(" \u{a0}\t ")])],
    )]);
    assert_eq!(extract(&doc).unwrap_err(), ExtractError::MalformedPage);
}

#[test]
fn keyword_is_never_empty_on_success() {
    let doc = page(vec![elem(
        "div",
        &[("class", "results-content")],
        vec![elem("span", &[("class", "keyword")], vec![text("\u{a0}w\u{a0}")])],
    )]);
    let w = extract(&doc).unwrap();
    assert_eq!(w.keyword, "w");
    assert!(!w.keyword.is_empty());
}

#[test]
fn missing_keyword_is_malformed() {
    let doc = page(vec![elem("div", &[("class", "results-content")], vec![text("bare")])]);
    assert_eq!(extract(&doc).unwrap_err(), ExtractError::MalformedPage);
}

#[test]
fn example_row_without_paragraph_is_malformed() {
    let doc = page(vec![elem(
        "div",
        &[("class", "results-content")],
        vec![
            elem("span", &[("class", "keyword")], vec![text("w")]),
            elem("div", &[("id", "examplesToggle")], vec![]),
            elem(
                "div",
                &[("id", "authority")],
                vec![elem("ul", &[], vec![elem("li", &[], vec![text("no paragraph")])])],
            ),
        ],
    )]);
    assert_eq!(extract(&doc).unwrap_err(), ExtractError::MalformedPage);
}

#[test]
fn sentences_extracted_and_trimmed() {
    let doc = page(vec![elem(
        "div",
        &[("class", "results-content")],
        vec![
            elem("span", &[("class", "keyword")], vec![text("w")]),
            elem("div", &[("id", "examplesToggle")], vec![]),
            elem(
                "div",
                &[("id", "authority")],
                vec![elem(
                    "ul",
                    &[],
                    vec![
                        elem("li", &[], vec![elem("p", &[], vec![text(" First one. ")])]),
                        elem("li", &[], vec![elem("p", &[], vec![text("Second.\n")])]),
                    ],
                )],
            ),
        ],
    )]);
    let w = extract(&doc).unwrap();
    assert_eq!(w.sentences, vec!["First one.".to_string(), "Second.".to_string()]);
}

#[test]
fn keyword_is_trimmed() {
    let doc = page(vec![elem(
        "div",
        &[("class", "results-content")],
        vec![elem("span", &[("class", "keyword")], vec![text("  hello\t")])],
    )]);
    let w = extract(&doc).unwrap();
    assert_eq!(w.keyword, "hello");
}

#[test]
fn translations_empty_without_container() {
    let doc = page(vec![elem(
        "div",
        &[("class", "results-content")],
        vec![elem("span", &[("class", "keyword")], vec![text("w")])],
    )]);
    let w = extract(&doc).unwrap();
    assert!(w.translations.is_empty());
}

#[test]
fn translations_empty_with_container_but_no_items() {
    let doc = page(vec![elem(
        "div",
        &[("class", "results-content")],
        vec![
            elem("span", &[("class", "keyword")], vec![text("w")]),
            elem("div", &[("class", "trans-container")], vec![elem("ul", &[], vec![])]),
        ],
    )]);
    let w = extract(&doc).unwrap();
    assert!(w.translations.is_empty());
}

#[test]
fn sentences_empty_without_toggle_even_with_authority() {
    let doc = page(vec![elem(
        "div",
        &[("class", "results-content")],
        vec![
            elem("span", &[("class", "keyword")], vec![text("w")]),
            elem(
                "div",
                &[("id", "authority")],
                vec![elem(
                    "ul",
                    &[],
                    vec![elem("li", &[], vec![elem("p", &[], vec![text("ignored")])])],
                )],
            ),
        ],
    )]);
    let w = extract(&doc).unwrap();
    assert!(w.sentences.is_empty());
}

#[test]
fn sentences_empty_with_toggle_but_no_authority() {
    let doc = page(vec![elem(
        "div",
        &[("class", "results-content")],
        vec![
            elem("span", &[("class", "keyword")], vec![text("w")]),
            elem("div", &[("id", "examplesToggle")], vec![]),
        ],
    )]);
    let w = extract(&doc).unwrap();
    assert!(w.sentences.is_empty());
}

#[test]
fn extraction_is_repeatable() {
    let html = "<div class=\"results-content\">\
                <span class=\"keyword\">twice</span>\
                <div class=\"baav\"><span class=\"pronounce\"> t w a s </span></div>\
                </div>";
    let a = extract_from_html(html).unwrap();
    let b = extract_from_html(html).unwrap();
    assert_eq!(a.keyword, b.keyword);
    assert_eq!(a.phonetics, b.phonetics);
    assert_eq!(a.translations, b.translations);
    assert_eq!(a.sentences, b.sentences);
}

#[test]
fn phonetics_hold_no_whitespace() {
    let html = "<div class=\"results-content\">\
                <span class=\"keyword\">w</span>\
                <div class=\"baav\"><span class=\"pronounce\">\ta b\nc  d\r</span></div>\
                </div>";
    let w = extract_from_html(html).unwrap();
    assert_eq!(w.phonetics, vec!["abcd".to_string()]);
    for p in &w.phonetics {
        assert!(!p.contains(char::is_whitespace));
    }
}

#[test]
fn phonetics_hold_no_unicode_whitespace() {
    let html = "<div class=\"results-content\">\
                <span class=\"keyword\">w</span>\
                <div class=\"baav\"><span class=\"pronounce\"> h&nbsp;i\u{2009}j\u{3000}k </span></div>\
                </div>";
    let w = extract_from_html(html).unwrap();
    assert_eq!(w.phonetics, vec!["hijk".to_string()]);
    for p in &w.phonetics {
        assert!(!p.contains(char::is_whitespace));
    }
}

#[test]
fn translations_trim_unicode_whitespace() {
    let doc = page(vec![elem(
        "div",
        &[("class", "results-content")],
        vec![
            elem("span", &[("class", "keyword")], vec![text("w")]),
            elem(
                "div",
                &[("class", "trans-container")],
                vec![elem(
                    "ul",
                    &[],
                    vec![elem("li", &[], vec![text("\u{a0} n. word \u{a0}\u{2028}")])],
                )],
            ),
        ],
    )]);
    let w = extract(&doc).unwrap();
    assert_eq!(w.translations, vec!["n. word".to_string()]);
    for t in &w.translations {
        assert_eq!(t, t.trim());
    }
}

#[test]
fn render_has_fixed_shape() {
    let w = Word {
        keyword: "hello".to_string(),
        phonetics: vec!["h\u{259}\u{2c8}lo\u{28a}".to_string()],
        translations: vec!["interj. hello".to_string()],
        sentences: vec![],
    };
    assert_eq!(
        w.render(),
        "hello\nh\u{259}\u{2c8}lo\u{28a}  \ninterj. hello\n\u{4f8b}\u{53e5}:\n"
    );
}

#[test]
fn render_keeps_heading_without_sentences() {
    let w = Word {
        keyword: "k".to_string(),
        phonetics: vec![],
        translations: vec![],
        sentences: vec![],
    };
    assert_eq!(w.render(), "k\n\n\u{4f8b}\u{53e5}:\n");
}
