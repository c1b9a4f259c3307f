use browser_agent::interpreter::PageElement;
use browser_agent::translate;

fn element(tag: &str) -> PageElement {
    PageElement {
        tag: tag.to_string(),
        inner_text: None,
        alt: None,
        href: None,
        placeholder: None,
        contains_heading: false,
    }
}

fn with_text(tag: &str, text: &str) -> PageElement {
    PageElement { inner_text: Some(text.to_string()), ..element(tag) }
}

#[test]
fn empty_button_is_skipped() {
    let elements = vec![with_text("BUTTON", "")];
    assert_eq!(translate(&elements, false).as_str(), "");
}

#[test]
fn image_with_alt_is_emitted() {
    let mut img = element("IMG");
    img.alt = Some("cat".to_string());
    let elements = vec![img];
    assert_eq!(translate(&elements, false).as_str(), "<img id=0 alt=\"cat\"/>");
}

#[test]
fn button_with_text_is_emitted() {
    let elements = vec![with_text("BUTTON", "Go")];
    assert_eq!(translate(&elements, false).as_str(), "<button id=0>Go</button>");
}

#[test]
fn paragraph_follows_inclusion_flag() {
    let elements = vec![with_text("P", "text")];
    assert_eq!(translate(&elements, false).as_str(), "");
    assert_eq!(translate(&elements, true).as_str(), "<p id=0>text</p>");
}

#[test]
fn link_needs_text_and_href() {
    let mut link = with_text("A", "Docs");
    link.href = Some("https://docs.example".to_string());
    let elements = vec![link];
    assert_eq!(
        translate(&elements, false).as_str(),
        "<link id=0 href=https://docs.example>Docs<link>"
    );

    let bare = vec![with_text("A", "Docs")];
    assert_eq!(translate(&bare, false).as_str(), "");
}

#[test]
fn link_containing_heading_is_skipped() {
    let mut link = with_text("A", "Section");
    link.href = Some("#section".to_string());
    link.contains_heading = true;
    let elements = vec![link];
    assert_eq!(translate(&elements, false).as_str(), "");
}

#[test]
fn input_needs_placeholder() {
    let mut input = element("INPUT");
    input.placeholder = Some("Search".to_string());
    let elements = vec![input];
    assert_eq!(translate(&elements, false).as_str(), "<input id=0>Search</input>");

    let bare = vec![element("INPUT")];
    assert_eq!(translate(&bare, false).as_str(), "");
}

#[test]
fn unknown_tag_is_skipped() {
    let elements = vec![with_text("DIV", "noise")];
    assert_eq!(translate(&elements, false).as_str(), "");
}

#[test]
fn ids_are_input_positions_even_past_skips() {
    let mut img = element("IMG");
    img.alt = Some("logo".to_string());
    let elements = vec![with_text("BUTTON", ""), with_text("BUTTON", "A"), img];
    let summary = translate(&elements, false);
    assert_eq!(summary.as_str(), "<button id=1>A</button>\n<img id=2 alt=\"logo\"/>");
    assert!(summary.lines().count() <= elements.len());
}

#[test]
fn two_digit_ids_are_rendered_in_decimal() {
    let mut elements: Vec<PageElement> = Vec::new();
    for _ in 0..11 {
        elements.push(element("DIV"));
    }
    elements.push(with_text("BUTTON", "Last"));
    assert_eq!(translate(&elements, false).as_str(), "<button id=11>Last</button>");
}
