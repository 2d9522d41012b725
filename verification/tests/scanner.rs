use lab16_core::entity_extractor::scanner::{EntityScanner, ScanError, MAX_SNIPPETS};

fn names(top: &[(&String, &lab16_core::entity_extractor::tables::EntityEvidence)]) -> Vec<String> {
    let mut v: Vec<String> = top.iter().map(|(n, _)| (*n).clone()).collect();
    v.sort();
    v
}

#[test]
fn starters_candidates_and_bigrams() {
    let mut es = EntityScanner::new();
    es.process_text("Maxim went home. Then Maxim Kammerer met Guy.");
    let maxim = es.candidates.get("Maxim").expect("Maxim is a candidate");
    assert_eq!(maxim.count, 1);
    assert_eq!(maxim.snippets, vec!["Then Maxim Kammerer met Guy.".to_string()]);
    assert_eq!(es.candidates.get("Kammerer").unwrap().count, 1);
    assert_eq!(es.candidates.get("Guy").unwrap().count, 1);
    assert!(es.candidates.get("Then").is_none());
    assert!(es.candidates.get("went").is_none());
    assert!(es.sentence_starters.contains("Maxim"));
    assert!(es.sentence_starters.contains("Then"));
    assert_eq!(es.bigrams.get("Maxim Kammerer"), Some(1));
    assert_eq!(es.bigrams.get("Kammerer Guy"), None);
}

#[test]
fn top_excludes_sentence_starters_and_rare_words() {
    let mut es = EntityScanner::new();
    es.process_text("Maxim went home. Then Maxim Kammerer met Guy. Later Guy met Rada.");
    assert_eq!(names(&es.get_top(1)), vec!["Guy".to_string(), "Kammerer".to_string(), "Rada".to_string()]);
    assert_eq!(names(&es.get_top(2)), vec!["Guy".to_string()]);
    assert!(es.get_top(3).is_empty());
}

#[test]
fn snippets_are_capped() {
    let mut es = EntityScanner::new();
    let mut text = String::new();
    for _ in 0..12 {
        text.push_str("We saw Zed there. ");
    }
    assert!(es.process_text_checked(&text));
    let zed = es.candidates.get("Zed").unwrap();
    assert_eq!(zed.count, 12);
    assert_eq!(zed.snippets.len(), MAX_SNIPPETS);
    assert_eq!(zed.snippets[0], "We saw Zed there.");
}

#[test]
fn line_feeds_end_snippets() {
    let mut es = EntityScanner::new();
    es.process_text("We saw Zed\nthere.");
    assert_eq!(es.candidates.get("Zed").unwrap().snippets, vec!["We saw Zed".to_string()]);
}

#[test]
fn text_outside_paragraphs_is_ignored() {
    let mut es = EntityScanner::new();
    let xml = b"<book><title>Hello there Bob.</title><p>Hello there Ann.</p>Then came Eve.</book>";
    assert_eq!(es.scan_xml(xml), Ok(()));
    assert!(es.candidates.get("Bob").is_none());
    assert!(es.candidates.get("Eve").is_none());
    assert_eq!(es.candidates.get("Ann").unwrap().count, 1);
}

#[test]
fn scan_stops_at_malformed_xml() {
    let mut es = EntityScanner::new();
    let xml = b"<book><p>We met Ann.</p><p>We met Bob.</q></book>";
    assert_eq!(es.scan_xml(xml), Err(ScanError::Xml));
    assert_eq!(es.candidates.get("Ann").unwrap().count, 1);
}

#[test]
fn undecodable_text_in_a_paragraph_stops_the_scan() {
    let mut es = EntityScanner::new();
    let outside: &[u8] = b"<book><x>\xff\xfe</x><p>We met Ann.</p></book>";
    assert_eq!(es.scan_xml(outside), Ok(()));
    let inside: &[u8] = b"<book><p>\xff\xfe</p></book>";
    assert_eq!(es.scan_xml(inside), Err(ScanError::Decode));
}

#[test]
fn counts_accumulate_across_texts() {
    let mut es = EntityScanner::new();
    es.process_text("The ship met Pandora.");
    es.process_text("They left Pandora.");
    let p = es.candidates.get("Pandora").unwrap();
    assert_eq!(p.count, 2);
    assert_eq!(p.snippets.len(), 2);
    assert_eq!(p.snippets[1], "They left Pandora.");
}

#[test]
fn report_orders_by_count_and_caps() {
    let mut es = EntityScanner::new();
    es.process_text("We met Ann Bell. We met Ann Bell. We met Ann. We met Cid. So Dee.");
    let cands = es.report_candidates(1);
    let shown: Vec<(String, u32)> = cands.iter().map(|(n, e)| ((*n).clone(), e.count)).collect();
    assert_eq!(shown[0], ("Ann".to_string(), 3));
    assert_eq!(shown[1], ("Bell".to_string(), 2));
    assert_eq!(shown.len(), 4);
    assert!(shown[2].1 == 1 && shown[3].1 == 1);
    assert_eq!(es.report_candidates(3).len(), 1);
    assert!(es.report_candidates(4).is_empty());

    let bis = es.report_bigrams(1);
    assert_eq!(bis, vec![(&"Ann Bell".to_string(), 2)]);
    assert!(es.report_bigrams(3).is_empty());
}

#[test]
fn report_keeps_at_most_thirty_candidates() {
    let mut es = EntityScanner::new();
    let mut text = String::new();
    for i in 0..40u32 {
        let name = format!("Name{}", (b'a' + (i % 26) as u8) as char).repeat(1 + (i / 26) as usize);
        text.push_str(&format!("we saw {}. ", name));
    }
    es.process_text(&text);
    assert_eq!(es.candidates.entries().len(), 40);
    assert_eq!(es.report_candidates(1).len(), lab16_core::entity_extractor::scanner::REPORT_CANDIDATES);
}

#[test]
fn scanning_more_text_drops_nothing() {
    let mut es = EntityScanner::new();
    es.process_text("We met Ann Bell there. So Bob left.");
    let ann = es.candidates.get("Ann").unwrap().count;
    let pair = es.bigrams.get("Ann Bell").unwrap();
    es.process_text("Nobody came. Then Cid arrived.");
    assert!(es.candidates.get("Ann").unwrap().count >= ann);
    assert!(es.bigrams.get("Ann Bell").unwrap() >= pair);
    assert!(es.sentence_starters.contains("So"));
    for (name, e) in es.candidates.entries() {
        assert!(e.count >= 1);
        assert!(name.chars().next().unwrap().is_uppercase());
        assert_eq!(e.snippets.len(), std::cmp::min(e.count as usize, MAX_SNIPPETS));
    }
}

#[test]
fn checked_scan_of_ordinary_text_completes() {
    let mut es = EntityScanner::new();
    assert!(es.process_text_checked("We met Ann Bell. We met Ann."));
    assert_eq!(es.candidates.get("Ann").unwrap().count, 2);
    assert_eq!(es.bigrams.get("Ann Bell"), Some(1));
}
