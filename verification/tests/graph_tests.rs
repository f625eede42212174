use agent_editor::graph::{extract_wikilinks, slug_before_heading, split_slug_alias};

#[test]
fn test_extract_wikilinks_basic() {
    let md = "Line1 [[Alpha|A]] and [[Beta]]\nNext [[Gamma#Section]] end";
    let links = extract_wikilinks(md);
    // Expect three links with cleaned slugs and 1-based line numbers
    assert_eq!(links.len(), 3);
    assert_eq!(links[0].0, "Alpha");
    assert_eq!(links[0].1, 1);
    assert_eq!(links[1].0, "Beta");
    assert_eq!(links[1].1, 1);
    assert_eq!(links[2].0, "Gamma");
    assert_eq!(links[2].1, 2);
}

#[test]
fn test_ignore_code_fences_and_inline_code() {
    let md = "```.ignore\n[[Hidden]]\n```\ninline `[[Nope]]` text [[Yes|Alias]]";
    let links = extract_wikilinks(md);
    assert_eq!(links.len(), 1);
    assert_eq!(links[0].0, "Yes");
}

#[test]
fn test_alias_with_pipes_and_heading() {
    let md = "[[Topic#H1|Ali|as with | pipes]] and [[Second]]";
    let links = extract_wikilinks(md);
    assert_eq!(links.len(), 2);
    assert_eq!(links[0].0, "Topic");
    assert_eq!(links[1].0, "Second");
}

#[test]
fn wikilinks_tilde_fence_and_crlf_lines() {
    let md = "~~~\n[[Inside]]\n~~~\r\n[[After]]\r\nlast [[One]]";
    let links = extract_wikilinks(md);
    assert_eq!(links.len(), 2);
    assert_eq!(links[0], ("After".to_string(), 4, 4));
    assert_eq!(links[1], ("One".to_string(), 5, 5));
}

#[test]
fn wikilinks_empty_and_heading_only_targets_are_skipped() {
    let links = extract_wikilinks("[[ ]] [[#Top]] [[|alias]] [[ Real Page |x]]");
    assert_eq!(links.len(), 1);
    assert_eq!(links[0].0, "Real Page");
}

#[test]
fn wikilinks_unclosed_link_stops_the_line() {
    let links = extract_wikilinks("[[Open and [[Closed]]\n[[Next]]");
    // the first `[[` is matched with the next `]]`
    assert_eq!(links.len(), 2);
    assert_eq!(links[0].0, "Open and [[Closed");
    assert_eq!(links[1], ("Next".to_string(), 2, 2));
}

#[test]
fn split_slug_alias_keeps_pipes_in_alias() {
    assert_eq!(
        split_slug_alias(" Topic | Ali|as "),
        Some(("Topic".to_string(), Some("Ali|as".to_string())))
    );
    assert_eq!(split_slug_alias("Plain"), Some(("Plain".to_string(), None)));
    assert_eq!(split_slug_alias("  |alias"), None);
}

#[test]
fn slug_before_heading_cuts_at_first_hash() {
    assert_eq!(slug_before_heading("Page#A#B".to_string()), "Page");
    assert_eq!(slug_before_heading("Page".to_string()), "Page");
}

#[test]
fn every_link_slug_is_free_of_pipes_hashes_and_backticks() {
    let md = "[[A#h|x]] `[[code]]` [[B|c|d]]\n```\n[[F]]\n```\n[[C`x`D]]";
    for (slug, start, end) in extract_wikilinks(md) {
        assert!(!slug.is_empty());
        assert!(!slug.contains('|') && !slug.contains('#') && !slug.contains('`'));
        assert_eq!(start, end);
        assert!(start >= 1 && start <= 5);
    }
}
