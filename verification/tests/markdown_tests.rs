use notevault::markdown::extract_links;
use notevault::markdown::extract_plain_text;
use notevault::markdown::render_markdown;
use notevault::markdown::sanitize_html;

#[test]
fn test_render_markdown() {
    let md_content = "# Title\nThis is **bold**.";
    let html_content = render_markdown(md_content);
    assert!(html_content.contains("<h1>Title</h1>"));
    assert!(html_content.contains("<strong>bold</strong>"));
}

#[test]
fn test_extract_links() {
    let md_content = "This note links to [[AnotherNote]] and [[TestNote]].";
    let links = extract_links(md_content);
    assert_eq!(links, vec!["AnotherNote", "TestNote"]);
}

#[test]
fn test_extract_plain_text() {
    let md_content = "# Title\nThis is **bold**.";
    let plain_text = extract_plain_text(md_content);
    assert_eq!(plain_text, "Title\nThis is bold.");
}

#[test]
fn link_extraction_trims_inner_whitespace() {
    let links = extract_links("See [[Alpha]] and [[ Beta ]].");
    assert_eq!(links, vec!["Alpha", "Beta"]);
}

#[test]
fn link_extraction_edges() {
    assert!(extract_links("no links here").is_empty());
    assert!(extract_links("[[unclosed").is_empty());
    assert!(extract_links("[[a]b]]").is_empty());
    assert_eq!(extract_links("[[a]][[b]]"), vec!["a", "b"]);
    assert_eq!(extract_links("[[ ]]"), vec![""]);
    assert_eq!(extract_links("x [[one two]] y [[one two]]"), vec!["one two", "one two"]);
}

#[test]
fn rendering_strips_scripts() {
    let html = render_markdown("# Title\n<script>alert(1)</script>");
    assert!(html.contains("<h1>Title</h1>"));
    assert!(!html.contains("<script"));
    assert!(!html.contains("alert(1)"));
}

#[test]
fn sanitize_html_drops_script_tags() {
    let cleaned = sanitize_html("<p>ok</p><script>bad()</script>");
    assert!(cleaned.contains("<p>ok</p>"));
    assert!(!cleaned.contains("<script"));
}

#[test]
fn plain_text_keeps_code_and_breaks() {
    assert_eq!(extract_plain_text("a `code` b"), "a code b");
    assert_eq!(extract_plain_text("line one\nline two"), "line one\nline two");
}
