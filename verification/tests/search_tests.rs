use boop_core::registry::{load_all, ScriptRegistry};
use boop_core::search::search;

fn registry_of(names: &[&str]) -> ScriptRegistry {
    let bundled: Vec<Vec<u8>> = names
        .iter()
        .map(|n| format!("/** {{ \"name\": \"{}\" }} **/ code", n).into_bytes())
        .collect();
    let (reg, diag) = load_all(bundled, Ok(vec![]));
    assert!(diag.is_none());
    reg
}

fn name_of(reg: &ScriptRegistry, id: usize) -> Vec<u8> {
    reg.get_by_id(id).unwrap().metadata.name.clone()
}

#[test]
fn rot13_query_ranks_rot13_first() {
    let reg = registry_of(&["ROT13 Encode", "Base64 Encode", "Reverse"]);
    let hits = search(&b"rot13".to_vec(), &reg);
    assert!(!hits.is_empty());
    assert_eq!(name_of(&reg, hits[0].id), b"ROT13 Encode".to_vec());
    // Neither other candidate holds the query as a subsequence.
    assert_eq!(hits.len(), 1);
}

#[test]
fn empty_query_returns_all_in_registry_order() {
    let reg = registry_of(&["ROT13 Encode", "Base64 Encode", "Reverse"]);
    let hits = search(&b"".to_vec(), &reg);
    assert_eq!(hits.len(), 3);
    for (i, hit) in hits.iter().enumerate() {
        assert_eq!(hit.id, i);
        assert_eq!(hit.score, 0);
        assert!(hit.positions.is_empty());
    }
    assert_eq!(name_of(&reg, hits[0].id), b"Base64 Encode".to_vec());
}

#[test]
fn unmatched_query_returns_empty_list() {
    let reg = registry_of(&["ROT13 Encode", "Base64 Encode", "Reverse"]);
    let hits = search(&b"zzz99".to_vec(), &reg);
    assert!(hits.is_empty());
}

#[test]
fn contiguous_match_outranks_scattered_match() {
    // Both names hold "ab" as a subsequence; the contiguous one must score
    // higher, which also shows the scorer's result reaches the ranking.
    let reg = registry_of(&["xaxxxxbx", "zab"]);
    let hits = search(&b"ab".to_vec(), &reg);
    assert_eq!(hits.len(), 2);
    assert_eq!(name_of(&reg, hits[0].id), b"zab".to_vec());
    assert!(hits[0].score > hits[1].score);
}

#[test]
fn matched_positions_point_at_the_query_characters() {
    let reg = registry_of(&["Reverse"]);
    let hits = search(&b"rev".to_vec(), &reg);
    assert_eq!(hits.len(), 1);
    assert_eq!(hits[0].positions, vec![0, 1, 2]);
}

#[test]
fn equal_scores_keep_registry_order() {
    // Two identical names score identically; the tie breaks by id.
    let reg = registry_of(&["Twin", "Twin"]);
    let hits = search(&b"twin".to_vec(), &reg);
    assert_eq!(hits.len(), 2);
    assert_eq!(hits[0].score, hits[1].score);
    assert!(hits[0].id < hits[1].id);
}

#[test]
fn case_insensitive_matching() {
    let reg = registry_of(&["Base64 Encode"]);
    let hits = search(&b"BASE64".to_vec(), &reg);
    assert_eq!(hits.len(), 1);
}

#[test]
fn whitespace_in_query_is_ignored_by_the_scorer() {
    let reg = registry_of(&["ROT13 Encode"]);
    let hits = search(&b"rot 13".to_vec(), &reg);
    assert_eq!(hits.len(), 1);
}
