use boop_core::registry::{load_all, DirectoryError, LoadDiagnostic, Provenance, Script};

fn script_named(name: &str) -> Vec<u8> {
    format!("/** {{ \"name\": \"{}\" }} **/ function main(state) {{}}", name).into_bytes()
}

fn user_file(path: &str, contents: Vec<u8>) -> (Vec<u8>, Vec<u8>) {
    (path.as_bytes().to_vec(), contents)
}

#[test]
fn load_merges_sorts_and_assigns_dense_ids() {
    let bundled = vec![script_named("Reverse"), script_named("Base64 Encode")];
    let user = vec![
        user_file("a.js", script_named("ROT13 Encode")),
        user_file("b.js", script_named("Trim")),
    ];
    let (reg, diag) = load_all(bundled, Ok(user));
    assert!(diag.is_none());
    assert_eq!(reg.len(), 4);
    let names: Vec<Vec<u8>> = (0..reg.len())
        .map(|i| reg.get_by_id(i).unwrap().metadata.name.clone())
        .collect();
    assert_eq!(
        names,
        vec![
            b"Base64 Encode".to_vec(),
            b"ROT13 Encode".to_vec(),
            b"Reverse".to_vec(),
            b"Trim".to_vec(),
        ]
    );
    for i in 0..reg.len() {
        assert_eq!(reg.get_by_id(i).unwrap().id, i);
    }
}

#[test]
fn malformed_user_file_is_skipped_not_fatal() {
    let bundled = vec![script_named("Reverse")];
    let user = vec![
        user_file("good.js", script_named("Trim")),
        user_file("bad.js", b"no metadata block here".to_vec()),
        user_file("worse.js", b"/** { \"author\": \"x\" } **/".to_vec()),
    ];
    let (reg, diag) = load_all(bundled, Ok(user));
    assert!(diag.is_none());
    assert_eq!(reg.len(), 2);
    assert_eq!(reg.get_by_id(0).unwrap().metadata.name, b"Reverse".to_vec());
    assert_eq!(reg.get_by_id(1).unwrap().metadata.name, b"Trim".to_vec());
}

#[test]
fn directory_error_degrades_to_bundled_only() {
    let bundled = vec![script_named("Reverse"), script_named("Trim")];
    let (reg, diag) = load_all(bundled, Err(DirectoryError::CreateFailed));
    assert_eq!(reg.len(), 2);
    assert_eq!(
        diag,
        Some(LoadDiagnostic::Directory(DirectoryError::CreateFailed))
    );
    let msg = diag.unwrap().message();
    assert_eq!(msg, "Can't create scripts directory, check your permissions");
    let msg2 = DirectoryError::ReadFailed.message();
    assert_eq!(msg2, "Can't read scripts directory, check your permissions");
}

#[test]
fn reload_recurs_same_metadata_with_fresh_ids() {
    let bundled = || vec![script_named("Reverse"), script_named("Base64 Encode")];
    let user = || vec![user_file("a.js", script_named("Trim"))];
    let (mut reg, _) = load_all(bundled(), Ok(user()));
    let first_names: Vec<Vec<u8>> = (0..reg.len())
        .map(|i| reg.get_by_id(i).unwrap().metadata.name.clone())
        .collect();
    let diag = reg.reload(bundled(), Ok(user()));
    assert!(diag.is_none());
    let second_names: Vec<Vec<u8>> = (0..reg.len())
        .map(|i| reg.get_by_id(i).unwrap().metadata.name.clone())
        .collect();
    assert_eq!(first_names, second_names);
    for i in 0..reg.len() {
        assert_eq!(reg.get_by_id(i).unwrap().id, i);
    }
}

#[test]
fn get_by_id_out_of_range_is_none() {
    let (reg, _) = load_all(vec![script_named("Reverse")], Ok(vec![]));
    assert!(reg.get_by_id(0).is_some());
    assert!(reg.get_by_id(1).is_none());
}

#[test]
fn provenance_and_origin_are_recorded() {
    let (reg, _) = load_all(
        vec![script_named("Reverse")],
        Ok(vec![user_file("mine.js", script_named("Trim"))]),
    );
    let bundled = reg.get_by_id(0).unwrap();
    assert_eq!(bundled.provenance, Provenance::Bundled);
    assert!(bundled.origin.is_none());
    let user = reg.get_by_id(1).unwrap();
    assert_eq!(user.provenance, Provenance::User);
    assert_eq!(user.origin, Some(b"mine.js".to_vec()));
}

#[test]
fn from_source_keeps_source_and_metadata() {
    let text = script_named("Trim");
    let s = Script::from_source(text.clone(), Provenance::User, Some(b"t.js".to_vec())).unwrap();
    assert_eq!(s.source, text);
    assert_eq!(s.metadata.name, b"Trim".to_vec());
    assert_eq!(s.id, 0);
}

#[test]
fn equal_names_both_survive() {
    let bundled = vec![script_named("Twin"), script_named("Twin")];
    let (reg, _) = load_all(bundled, Ok(vec![]));
    assert_eq!(reg.len(), 2);
    assert_eq!(reg.get_by_id(0).unwrap().metadata.name, b"Twin".to_vec());
    assert_eq!(reg.get_by_id(1).unwrap().metadata.name, b"Twin".to_vec());
}

#[test]
fn empty_load_yields_empty_registry() {
    let (reg, diag) = load_all(vec![], Ok(vec![]));
    assert!(diag.is_none());
    assert_eq!(reg.len(), 0);
    assert!(reg.get_by_id(0).is_none());
}
