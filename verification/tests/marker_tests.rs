use reqaz::dom::{contains_marker, remove_markers, text_contents, DomNode, QName};

const HTML_NS: &str = "http://www.w3.org/1999/xhtml";

fn elem(local: &str, children: Vec<DomNode>) -> DomNode {
    DomNode::Element {
        name: QName { ns: HTML_NS.to_string(), local: local.to_string() },
        attrs: Vec::new(),
        children,
    }
}

fn text(content: &str) -> DomNode {
    DomNode::Text { content: content.to_string() }
}

fn marker(children: Vec<DomNode>) -> DomNode {
    elem("nib:script", children)
}

#[test]
fn removal_is_total() {
    // three markers, one nested inside another
    let doc = elem(
        "body",
        vec![
            marker(vec![text("a")]),
            elem("div", vec![marker(vec![marker(vec![text("b")])])]),
            text("keep"),
        ],
    );
    assert!(contains_marker(&doc));
    let (cleaned, texts) = remove_markers(doc);
    assert!(!contains_marker(&cleaned));
    assert_eq!(texts, vec!["a".to_string(), "b".to_string()]);
}

#[test]
fn sibling_order_preserved() {
    let doc = elem(
        "body",
        vec![elem("a", vec![]), marker(vec![text("x")]), elem("b", vec![])],
    );
    let (cleaned, texts) = remove_markers(doc);
    match cleaned {
        DomNode::Element { children, .. } => {
            assert_eq!(children.len(), 2);
            match &children[0] {
                DomNode::Element { name, .. } => assert_eq!(name.local, "a"),
                _ => panic!("first child is not an element"),
            }
            match &children[1] {
                DomNode::Element { name, .. } => assert_eq!(name.local, "b"),
                _ => panic!("second child is not an element"),
            }
        },
        _ => panic!("cleaned root is not an element"),
    }
    assert_eq!(texts, vec!["x".to_string()]);
}

#[test]
fn nested_marker_removed_once() {
    // a marker containing another marker: one extraction, no trace of either
    let doc = elem("body", vec![marker(vec![text("outer"), marker(vec![text("inner")])])]);
    let (cleaned, texts) = remove_markers(doc);
    assert!(!contains_marker(&cleaned));
    // the whole marked block is stripped as one unit
    assert_eq!(texts, vec!["outerinner".to_string()]);
}

#[test]
fn rerun_on_clean_tree_is_noop() {
    let doc = elem("body", vec![marker(vec![text("x")]), elem("p", vec![text("Hi")])]);
    let (once, _) = remove_markers(doc);
    let shown_once = reqaz::ser::to_html(&once);
    let (twice, texts) = remove_markers(once);
    let shown_twice = reqaz::ser::to_html(&twice);
    assert_eq!(shown_once, shown_twice);
    assert!(texts.is_empty());
}

#[test]
fn text_contents_concatenates_in_document_order() {
    let doc = elem(
        "body",
        vec![text("a"), elem("div", vec![text("b"), elem("i", vec![text("c")])]), text("d")],
    );
    assert_eq!(text_contents(&doc), "abcd");
}

#[test]
fn marker_needs_the_html_namespace() {
    let other = DomNode::Element {
        name: QName { ns: "urn:other".to_string(), local: "nib:script".to_string() },
        attrs: Vec::new(),
        children: Vec::new(),
    };
    assert!(!contains_marker(&other));
    let doc = elem("body", vec![other]);
    let (cleaned, texts) = remove_markers(doc);
    assert!(texts.is_empty());
    match cleaned {
        DomNode::Element { children, .. } => assert_eq!(children.len(), 1),
        _ => panic!("cleaned root is not an element"),
    }
}
