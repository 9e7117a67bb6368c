use wudao::dom::{Attr, DomNode};
use wudao::query::{find_all, find_first, find_under, Pred};
use wudao::text::{collapse_ws, trim_str};

fn text(s: &str) -> DomNode {
    DomNode::Text(s.to_string())
}

fn elem(tag: &str, attrs: &[(&str, &str)], children: Vec<DomNode>) -> DomNode {
    DomNode::Elem {
        tag: tag.to_string(),
        attrs: attrs
            .iter()
            .map(|(k, v)| Attr { key: k.to_string(), value: v.to_string() })
            .collect(),
        children,
    }
}

fn tag_of(n: &DomNode) -> &str {
    match n {
        DomNode::Elem { tag, .. } => tag,
        DomNode::Text(_) => "",
    }
}

#[test]
fn tag_match_is_case_insensitive() {
    let n = elem("DIV", &[], vec![]);
    assert!(wudao::query::matches(&Pred::ByTag("div".to_string()), &n));
    assert!(wudao::query::matches(&Pred::ByTag("DIV".to_string()), &n));
    assert!(!wudao::query::matches(&Pred::ByTag("span".to_string()), &n));
}

#[test]
fn class_match_uses_whole_tokens() {
    let n = elem("div", &[("class", "alpha beta  gamma")], vec![]);
    assert!(wudao::query::matches(&Pred::ByClass("beta".to_string()), &n));
    assert!(wudao::query::matches(&Pred::ByClass("alpha".to_string()), &n));
    assert!(wudao::query::matches(&Pred::ByClass("gamma".to_string()), &n));
    assert!(!wudao::query::matches(&Pred::ByClass("bet".to_string()), &n));
    assert!(!wudao::query::matches(&Pred::ByClass("alpha beta".to_string()), &n));
    assert!(!wudao::query::matches(&Pred::ByClass("".to_string()), &n));
}

#[test]
fn attr_match_is_exact() {
    let n = elem("div", &[("id", "examplesToggle")], vec![]);
    assert!(wudao::query::matches(&Pred::ByAttr("id".to_string(), "examplesToggle".to_string()), &n));
    assert!(!wudao::query::matches(&Pred::ByAttr("id".to_string(), "examples".to_string()), &n));
    assert!(!wudao::query::matches(&Pred::ByAttr("class".to_string(), "examplesToggle".to_string()), &n));
}

#[test]
fn has_descendant_composes() {
    let n = elem(
        "div",
        &[("class", "outer")],
        vec![elem("ul", &[], vec![elem("li", &[], vec![text("x")])])],
    );
    let p = Pred::HasDescendant(
        Box::new(Pred::ByClass("outer".to_string())),
        Box::new(Pred::ByTag("li".to_string())),
    );
    assert!(wudao::query::matches(&p, &n));
    let q = Pred::HasDescendant(
        Box::new(Pred::ByClass("outer".to_string())),
        Box::new(Pred::ByTag("p".to_string())),
    );
    assert!(!wudao::query::matches(&q, &n));
}

#[test]
fn find_all_keeps_document_order() {
    let doc = elem(
        "root",
        &[],
        vec![
            elem("a", &[], vec![elem("li", &[("id", "1")], vec![])]),
            elem("li", &[("id", "2")], vec![]),
            elem("b", &[], vec![elem("li", &[("id", "3")], vec![])]),
        ],
    );
    let hits = find_all(&doc, &Pred::ByTag("li".to_string()));
    let ids: Vec<&str> = hits
        .iter()
        .map(|n| match n {
            DomNode::Elem { attrs, .. } => attrs[0].value.as_str(),
            DomNode::Text(_) => "",
        })
        .collect();
    assert_eq!(ids, vec!["1", "2", "3"]);
}

#[test]
fn find_first_takes_the_first_in_document_order() {
    let doc = elem(
        "root",
        &[],
        vec![
            elem("a", &[], vec![elem("p", &[("id", "first")], vec![])]),
            elem("p", &[("id", "second")], vec![]),
        ],
    );
    let hit = find_first(&doc, &Pred::ByTag("p".to_string())).unwrap();
    match hit {
        DomNode::Elem { attrs, .. } => assert_eq!(attrs[0].value, "first"),
        DomNode::Text(_) => panic!("expected an element"),
    }
    assert!(find_first(&doc, &Pred::ByTag("video".to_string())).is_none());
}

#[test]
fn find_under_requires_a_matching_ancestor() {
    let doc = elem(
        "root",
        &[],
        vec![
            elem("li", &[("id", "stray")], vec![]),
            elem(
                "ul",
                &[],
                vec![elem("li", &[("id", "inside")], vec![]), elem("span", &[], vec![])],
            ),
        ],
    );
    let hits = find_under(
        &doc,
        &Pred::ByTag("ul".to_string()),
        &Pred::ByTag("li".to_string()),
    );
    assert_eq!(hits.len(), 1);
    match hits[0] {
        DomNode::Elem { attrs, .. } => assert_eq!(attrs[0].value, "inside"),
        DomNode::Text(_) => panic!("expected an element"),
    }
}

#[test]
fn find_searches_strict_descendants_only() {
    let doc = elem("li", &[], vec![text("x")]);
    assert!(find_first(&doc, &Pred::ByTag("li".to_string())).is_none());
    assert_eq!(tag_of(&doc), "li");
}

#[test]
fn collapse_removes_every_whitespace_kind() {
    assert_eq!(collapse_ws(" h \u{259} \u{2c8} l o\u{28a} "), "h\u{259}\u{2c8}lo\u{28a}");
    assert_eq!(collapse_ws("a\tb\nc\rd e"), "abcde");
    assert_eq!(collapse_ws(""), "");
    assert_eq!(collapse_ws(" \t\n"), "");
}

#[test]
fn collapse_matches_split_whitespace_on_unicode() {
    let s = "a\u{a0}b\u{1680}c\u{2003}d\u{202f}e\u{205f}f\u{3000}g\u{85}h";
    assert_eq!(collapse_ws(s), s.split_whitespace().collect::<String>());
    assert_eq!(collapse_ws(s), "abcdefgh");
    assert_eq!(collapse_ws("\u{2028}\u{2029}"), "");
}

#[test]
fn trim_removes_edges_only() {
    assert_eq!(trim_str("  a b\t"), "a b");
    assert_eq!(trim_str("abc"), "abc");
    assert_eq!(trim_str(""), "");
    assert_eq!(trim_str(" \t\r\n"), "");
    assert_eq!(trim_str("\n interj. hello \t"), "interj. hello");
}

#[test]
fn trim_matches_str_trim_on_unicode() {
    let cases = [
        "\u{a0}x\u{a0}",
        "\u{2000}\u{200a} y ",
        "\u{3000}z\u{202f}\u{2029}",
        "inner\u{a0}kept",
    ];
    for s in cases {
        assert_eq!(trim_str(s), s.trim());
    }
}

#[test]
fn class_tokens_split_on_unicode_whitespace() {
    let n = elem("div", &[("class", "alpha\u{a0}beta")], vec![]);
    assert!(wudao::query::matches(&Pred::ByClass("alpha".to_string()), &n));
    assert!(wudao::query::matches(&Pred::ByClass("beta".to_string()), &n));
    assert!(!wudao::query::matches(&Pred::ByClass("alpha\u{a0}beta".to_string()), &n));
}
