use lab16_core::entity_extractor::extractor::{
    chunk_prompts, clean_json, clean_json_applies, format_chunk_prompt, EntityType, PROMPT_HEAD,
    PROMPT_TAIL,
};
use lab16_core::entity_extractor::tables::EntityEvidence;

#[test]
fn clean_json_cuts_the_object() {
    assert_eq!(clean_json("Sure! {\"entities\": []} Hope this helps."), "{\"entities\": []}");
    assert_eq!(clean_json("{\"a\": {\"b\": 1}}"), "{\"a\": {\"b\": 1}}");
}

#[test]
fn clean_json_without_braces() {
    assert_eq!(clean_json("no json here"), "no json here");
    assert_eq!(clean_json("tail only }"), "tail only }");
    assert_eq!(clean_json("{ head only"), "{ head only");
}

#[test]
fn clean_json_counts_characters_not_bytes() {
    assert_eq!(clean_json("Ответ: {\"имя\": \"Лев\"} конец"), "{\"имя\": \"Лев\"}");
}

#[test]
fn clean_json_span_validity() {
    assert!(clean_json_applies("x {} y"));
    assert!(clean_json_applies("}{"));
    assert_eq!(clean_json("}{"), "");
    assert!(!clean_json_applies("} a {"));
}

#[test]
fn chunk_prompt_lists_candidates() {
    let name = "Maxim".to_string();
    let ev = EntityEvidence { count: 3, snippets: vec!["Maxim ran.".to_string(), "Then Maxim slept.".to_string()] };
    let chunk = vec![(&name, &ev)];
    let p = format_chunk_prompt(&chunk);
    assert!(p.starts_with(PROMPT_HEAD));
    assert!(p.ends_with(PROMPT_TAIL));
    let body = &p[PROMPT_HEAD.len()..p.len() - PROMPT_TAIL.len()];
    assert_eq!(body, "### Entity: Maxim\nSnippets:\n- \"Maxim ran.\"\n- \"Then Maxim slept.\"\n");
}

#[test]
fn prompts_take_eight_candidates_each() {
    let names: Vec<String> = (0..17).map(|i| format!("Name{}", i)).collect();
    let ev = EntityEvidence { count: 2, snippets: vec![] };
    let cands: Vec<(&String, &EntityEvidence)> = names.iter().map(|n| (n, &ev)).collect();
    let prompts = chunk_prompts(&cands);
    assert_eq!(prompts.len(), 3);
    assert!(prompts[0].contains("### Entity: Name7\n"));
    assert!(!prompts[0].contains("### Entity: Name8\n"));
    assert!(prompts[1].contains("### Entity: Name8\n"));
    assert!(prompts[2].contains("### Entity: Name16\n"));
    assert_eq!(prompts[2].matches("### Entity:").count(), 1);
    assert!(chunk_prompts(&Vec::new()).is_empty());
}

#[test]
fn unknown_is_the_default_entity_type() {
    assert_eq!(EntityType::default(), EntityType::Unknown);
    assert_eq!(lab16_core::knowledge::EntityType::default(), lab16_core::knowledge::EntityType::Unknown);
}

#[test]
fn clean_json_twice_is_clean_json_once() {
    for raw in ["Sure! {\"a\": 1} ok", "no json", "} x {", "}{", "{ only head", "tail only }", ""] {
        if clean_json_applies(raw) {
            let once = clean_json(raw);
            assert!(clean_json_applies(once));
            assert_eq!(clean_json(once), once);
        }
    }
}
