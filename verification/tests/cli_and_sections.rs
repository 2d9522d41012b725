use lab16_core::fb2scan::segments::append_segment;
use lab16_core::cli::ExtractArgs;
use lab16_core::extractor::{is_substantial, section_prompt};
use lab16_core::fb2scan::book::{Body, Book, BookSection, Paragraph, SectionContent, SectionPart, StyleNode};
use lab16_core::fb2scan::Fb2Scan;

#[test]
fn output_defaults_to_entities_json() {
    let args = ExtractArgs { input: vec!["a.fb2".to_string()], output: None };
    assert_eq!(args.output_path(), "entities.json");
    let args = ExtractArgs { input: vec![], output: Some("out.json".to_string()) };
    assert_eq!(args.output_path(), "out.json");
}

fn one_section(texts: &[&str]) -> Fb2Scan {
    let parts = texts
        .iter()
        .map(|t| SectionPart::Paragraph(Paragraph { elements: vec![StyleNode::Text(t.to_string())] }))
        .collect();
    let section = BookSection { content: Some(SectionContent { title: None, parts, sections: vec![] }) };
    Fb2Scan::from_book(Book { bodies: vec![Body { name: None, sections: vec![section] }] })
}

#[test]
fn short_sections_get_no_prompt() {
    let scan = one_section(&["  short text  "]);
    let s = &scan.sections()[0];
    assert!(!is_substantial(s));
    assert_eq!(section_prompt(s, "<", ">"), None);
}

#[test]
fn long_sections_are_framed() {
    let scan = one_section(&["This paragraph is certainly long enough to be sent."]);
    let s = &scan.sections()[0];
    assert!(is_substantial(s));
    assert_eq!(
        section_prompt(s, "<", ">"),
        Some("<This paragraph is certainly long enough to be sent.\n\n>".to_string())
    );
}

#[test]
fn byte_length_decides_not_characters() {
    // 21 Cyrillic letters take 42 bytes.
    let scan = one_section(&["ЛевАбалкинСаракшЛюдены"]);
    assert!(is_substantial(&scan.sections()[0]));
}

#[test]
fn paragraphs_make_up_the_text() {
    let scan = one_section(&["  One ", "", "Two\t"]);
    let s = &scan.sections()[0];
    assert_eq!(s.pars(), vec!["One\n\n", "Two\n\n"]);
    assert_eq!(s.pars().concat(), s.text());
    assert_eq!(s.title(), None);
}

#[test]
fn empty_sections_are_dropped() {
    let scan = one_section(&["   ", ""]);
    assert!(scan.sections().is_empty());
}

#[test]
fn language_is_detected() {
    let scan = one_section(&["The quick brown fox jumps over the lazy dog, and then it runs far away into the forest."]);
    assert_eq!(scan.sections()[0].language(), Some("English"));
}

#[test]
fn named_body_between_others_adds_nothing() {
    let body = |name: Option<&str>, text: &str| Body {
        name: name.map(|n| n.to_string()),
        sections: vec![BookSection {
            content: Some(SectionContent {
                title: None,
                parts: vec![SectionPart::Paragraph(Paragraph { elements: vec![StyleNode::Text(text.to_string())] })],
                sections: vec![],
            }),
        }],
    };
    let with = Fb2Scan::from_book(Book { bodies: vec![body(None, "First"), body(Some("notes"), "Note"), body(None, "Second")] });
    let without = Fb2Scan::from_book(Book { bodies: vec![body(None, "First"), body(None, "Second")] });
    let texts = |s: &Fb2Scan| s.sections().iter().map(|x| x.text().to_string()).collect::<Vec<_>>();
    assert_eq!(texts(&with), texts(&without));
    assert_eq!(texts(&with), vec!["First\n\n".to_string(), "Second\n\n".to_string()]);
}

#[test]
fn segments_are_recorded_in_bytes() {
    let mut text = String::new();
    let mut indices: Vec<(usize, usize)> = Vec::new();
    append_segment(&mut text, &mut indices, " é ");
    assert_eq!(text, "é\n\n");
    assert_eq!(indices, vec![(0, 4)]);
    append_segment(&mut text, &mut indices, "Лев");
    assert_eq!(indices, vec![(0, 4), (4, 12)]);
    append_segment(&mut text, &mut indices, "   ");
    assert_eq!(indices.len(), 2);
    assert_eq!(&text[indices[1].0..indices[1].1], "Лев\n\n");
}

#[test]
fn segments_append_to_any_state() {
    let mut text = "preface".to_string();
    let mut indices: Vec<(usize, usize)> = vec![(100, 200)];
    append_segment(&mut text, &mut indices, "x");
    assert_eq!(text, "prefacex\n\n");
    assert_eq!(indices, vec![(100, 200), (7, 10)]);
}

#[test]
fn pars_of_non_ascii_text() {
    let scan = one_section(&["Саракш", "Пандора"]);
    let s = &scan.sections()[0];
    assert_eq!(s.pars(), vec!["Саракш\n\n", "Пандора\n\n"]);
}
