use oc_diagdoc::patterns::{
    captures, is_match, RE_CHILDREN_COUNT, RE_CONTENT_HASH, RE_DOCUMENT_ID, RE_DRAFT, RE_IMAGE,
    RE_IMAGE_EMPTY_ALT, RE_LAST_UPDATED, RE_MD_EMBED, RE_MD_LINK, RE_MERMAID, RE_MODULE,
    RE_OBSIDIAN_EMBED, RE_PARENT_ID, RE_STATUS, RE_TABLE_ROW, RE_TABLE_SEPARATOR, RE_TITLE,
    RE_TOTAL_CHILDREN, RE_TYPE, RE_WIKI_LINK, RE_WIKI_LINK_FULL, RE_WIKI_LINK_WITH_ALIAS,
};

fn group(caps: &[Option<String>], k: usize) -> &str {
    caps[k].as_deref().unwrap()
}

#[test]
fn test_all_patterns_compile() {
    assert!(is_match(RE_DOCUMENT_ID, "document_id: test"));
    assert!(is_match(RE_PARENT_ID, "parent_id: PAR-001"));
    assert!(is_match(RE_MODULE, "module: Core"));
    assert!(is_match(RE_TITLE, "title: Test Title"));
    assert!(is_match(RE_STATUS, "status: draft"));
    assert!(is_match(RE_LAST_UPDATED, "last_updated: 2024-01-01"));
    assert!(is_match(RE_CONTENT_HASH, "content_hash: abc123"));
    assert!(is_match(RE_CHILDREN_COUNT, "children_count: 5"));
    assert!(is_match(RE_TOTAL_CHILDREN, "total_children: 10"));
    assert!(is_match(RE_TYPE, "type: document"));
    assert!(is_match(RE_DRAFT, "draft: true"));
}

#[test]
fn test_link_patterns() {
    assert!(is_match(RE_WIKI_LINK, "[[target]]"));
    assert!(is_match(RE_WIKI_LINK, "[[target|alias]]"));
    let caps = captures(RE_WIKI_LINK_WITH_ALIAS, "[[target|alias]]").unwrap();
    assert_eq!(group(&caps, 1), "target");
    assert!(is_match(RE_MD_LINK, "[text](url)"));
    let caps = captures(RE_MD_LINK, "[text](url)").unwrap();
    assert_eq!(group(&caps, 1), "text");
    assert_eq!(group(&caps, 2), "url");
}

#[test]
fn test_embed_patterns() {
    assert!(is_match(RE_OBSIDIAN_EMBED, "![[image.png]]"));
    assert!(is_match(RE_MD_EMBED, "![alt](src.png)"));
    assert!(is_match(RE_IMAGE, "![](image.jpg)"));
    assert!(is_match(RE_IMAGE_EMPTY_ALT, "![](image.jpg)"));
    assert!(!is_match(RE_IMAGE_EMPTY_ALT, "![alt](image.jpg)"));
}

#[test]
fn test_mermaid_pattern() {
    let content = "```mermaid\ngraph TD\n  A --> B\n```";
    let caps = captures(RE_MERMAID, content).unwrap();
    assert!(group(&caps, 1).contains("graph TD"));
}

#[test]
fn test_table_patterns() {
    assert!(is_match(RE_TABLE_ROW, "| col1 | col2 |"));
    assert!(is_match(RE_TABLE_SEPARATOR, "|---|---|"));
    assert!(is_match(RE_TABLE_SEPARATOR, "| :--- | ---: |"));
}

#[test]
fn test_frontmatter_captures() {
    let caps = captures(RE_DOCUMENT_ID, "document_id: 'DOC-001'").unwrap();
    assert_eq!(group(&caps, 1), "DOC-001");
    let caps = captures(RE_DOCUMENT_ID, "document_id: DOC-002").unwrap();
    assert_eq!(group(&caps, 1), "DOC-002");
}

#[test]
fn test_wiki_link_full() {
    let caps = captures(RE_WIKI_LINK_FULL, "[[target|display]]").unwrap();
    assert_eq!(group(&caps, 1), "target");
    assert_eq!(group(&caps, 2), "display");
    let caps = captures(RE_WIKI_LINK_FULL, "[[target]]").unwrap();
    assert_eq!(group(&caps, 1), "target");
    assert!(caps.get(2).map(|g| g.is_none()).unwrap_or(true));
}

#[test]
fn invalid_pattern_matches_nothing() {
    assert!(!is_match("(", "anything"));
    assert!(captures("(", "anything").is_none());
}
