use reqaz::mods::ScriptMod;
use reqaz::resolve::{path_is_html, strip_markers, SourceError, SourceResolver};

fn resolver() -> SourceResolver<ScriptMod> {
    SourceResolver::new(
        "/site".to_string(),
        "localhost:5000".to_string(),
        vec![ScriptMod::new("/index.html".to_string())],
    )
}

#[test]
fn local_path_maps_under_root() {
    let r = resolver();
    let p = r.local_path("/index.html").unwrap();
    assert_eq!(p, "/site/index.html");
}

#[test]
fn local_path_normalizes_dots() {
    let r = resolver();
    let p = r.local_path("/a/./b/../c.html").unwrap();
    assert_eq!(p, "/site/a/c.html");
}

#[test]
fn escape_above_root_is_rejected() {
    let r = resolver();
    let e = r.local_path("../../etc/passwd").unwrap_err();
    assert!(matches!(e, SourceError::OutOfRoot));
    let e2 = r.local_path("/a/../../etc/passwd").unwrap_err();
    assert!(matches!(e2, SourceError::OutOfRoot));
}

#[test]
fn html_paths_are_detected() {
    assert!(path_is_html("/site/index.html"));
    assert!(!path_is_html("/site/logo.png"));
    assert!(!path_is_html("htm"));
}

#[test]
fn end_to_end_marker_stripping() {
    let input = "<html><body><p>Hi</p><nib:script>alert(1)</nib:script></body></html>";
    let (body, texts) = strip_markers(input);
    assert_eq!(body, "<html><head></head><body><p>Hi</p></body></html>");
    assert_eq!(texts, vec!["alert(1)".to_string()]);
}

#[test]
fn chain_of_one_script_mod_strips_markers() {
    let r = resolver();
    let input = "<html><body><p>Hi</p><nib:script>alert(1)</nib:script></body></html>";
    let out = r.process_html(input).unwrap();
    assert_eq!(out, "<html><head></head><body><p>Hi</p></body></html>");
}

#[test]
fn running_the_chain_twice_changes_nothing() {
    let twice = SourceResolver::new(
        "/site".to_string(),
        "localhost:5000".to_string(),
        vec![
            ScriptMod::new("/index.html".to_string()),
            ScriptMod::new("/index.html".to_string()),
        ],
    );
    let once = resolver();
    let input = "<html><body><nib:script>x</nib:script><p>Hi</p></body></html>";
    assert_eq!(once.process_html(input).unwrap(), twice.process_html(input).unwrap());
}

#[test]
fn text_and_attributes_are_escaped() {
    let input = "<html><body><p class=\"a&b\">1 &lt; 2</p></body></html>";
    let (body, texts) = strip_markers(input);
    assert!(texts.is_empty());
    assert_eq!(
        body,
        "<html><head></head><body><p class=\"a&amp;b\">1 &lt; 2</p></body></html>"
    );
}
