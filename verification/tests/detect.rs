use mayberun::{check_glob, hash_contents, write_glob, CheckResult, GlobError, GlobState};

fn entry(path: &str, content: &str) -> (String, Vec<u8>) {
    (path.to_string(), content.as_bytes().to_vec())
}

#[test]
fn no_initial_file() {
    let files: Vec<(String, Vec<u8>)> = Vec::new();
    assert_eq!(Ok(CheckResult::Changed), check_glob(None, "**/*.txt", &files));
}

#[test]
fn write_some_files() {
    let files = vec![entry("test.txt", "Hello, World")];

    assert_eq!(Ok(CheckResult::Changed), check_glob(None, "**/*.txt", &files));

    let state = write_glob(None, "**/*.txt", &files).unwrap();
    assert_eq!(
        Ok(CheckResult::Unchanged),
        check_glob(Some(&state), "**/*.txt", &files)
    );
}

#[test]
fn write_change_check() {
    let before = vec![entry("test.txt", "Hello, World")];
    let state = write_glob(None, "**/*.txt", &before).unwrap();

    let after = vec![entry("test.txt", "Hola, Mundo")];
    let result = check_glob(Some(&state), "**/*.txt", &after);

    assert_eq!(Ok(CheckResult::Changed), result);
}

#[test]
fn check_is_idempotent() {
    let files = vec![entry("test.txt", "Hello, World")];
    let state = write_glob(None, "**/*.txt", &files).unwrap();

    assert_eq!(
        Ok(CheckResult::Unchanged),
        check_glob(Some(&state), "**/*.txt", &files)
    );
    assert_eq!(
        Ok(CheckResult::Unchanged),
        check_glob(Some(&state), "**/*.txt", &files)
    );
}

#[test]
fn removed_file_is_a_change() {
    let files = vec![entry("test.txt", "Hello, World")];
    let state = write_glob(None, "**/*.txt", &files).unwrap();

    let now: Vec<(String, Vec<u8>)> = Vec::new();
    assert_eq!(Ok(CheckResult::Changed), check_glob(Some(&state), "**/*.txt", &now));
}

#[test]
fn added_file_is_a_change() {
    let files = vec![entry("test.txt", "Hello, World")];
    let state = write_glob(None, "**/*.txt", &files).unwrap();

    let now = vec![
        entry("test.txt", "Hello, World"),
        entry("test2.txt", "Hello again"),
    ];
    assert_eq!(Ok(CheckResult::Changed), check_glob(Some(&state), "**/*.txt", &now));
}

#[test]
fn unknown_pattern_is_a_change() {
    let files = vec![entry("test.txt", "Hello, World")];
    let state = write_glob(None, "**/*.txt", &files).unwrap();

    assert_eq!(Ok(CheckResult::Changed), check_glob(Some(&state), "*.rs", &files));
}

#[test]
fn hashes_are_shared_across_patterns() {
    let old = vec![entry("test.txt", "Hello, World")];
    let state = write_glob(None, "**/*.txt", &old).unwrap();
    let state = write_glob(Some(state), "*.txt", &old).unwrap();

    // Recording through the first pattern updates the digest that a check
    // of the second pattern consults.
    let new = vec![entry("test.txt", "Hola, Mundo")];
    let state = write_glob(Some(state), "**/*.txt", &new).unwrap();

    assert_eq!(Ok(CheckResult::Unchanged), check_glob(Some(&state), "*.txt", &new));
    assert_eq!(Ok(CheckResult::Changed), check_glob(Some(&state), "*.txt", &old));
}

#[test]
fn malformed_pattern_is_rejected() {
    let files = vec![entry("test.txt", "Hello, World")];
    let state = write_glob(None, "**/*.txt", &files).unwrap();

    assert_eq!(
        Err(GlobError::InvalidPattern),
        check_glob(Some(&state), "***", &files)
    );
    assert_eq!(
        Err(GlobError::InvalidPattern),
        write_glob(Some(state), "***", &files).map(|_| ())
    );
}

#[test]
fn malformed_pattern_with_no_cache_is_a_change() {
    // With no recorded state the answer is Changed before the pattern is
    // even looked at.
    let files: Vec<(String, Vec<u8>)> = Vec::new();
    assert_eq!(Ok(CheckResult::Changed), check_glob(None, "***", &files));
}

#[test]
fn entries_round_trip() {
    let files = vec![
        entry("test.txt", "Hello, World"),
        entry("test2.txt", "Hola, Mundo"),
    ];
    let state = write_glob(None, "**/*.txt", &files).unwrap();

    let rebuilt = GlobState::from_entries(
        state.hash_entries().clone(),
        state.snapshot_entries().clone(),
    );
    assert_eq!(
        Ok(CheckResult::Unchanged),
        check_glob(Some(&rebuilt), "**/*.txt", &files)
    );
}

#[test]
fn from_entries_drops_repeated_paths() {
    let digest = hash_contents(&"Hello, World".as_bytes().to_vec());
    let state = GlobState::from_entries(
        vec![("test.txt".to_string(), digest)],
        vec![(
            "**/*.txt".to_string(),
            vec!["test.txt".to_string(), "test.txt".to_string()],
        )],
    );

    let files = vec![entry("test.txt", "Hello, World")];
    assert_eq!(
        Ok(CheckResult::Unchanged),
        check_glob(Some(&state), "**/*.txt", &files)
    );
}

#[test]
fn empty_state_knows_nothing() {
    let state = GlobState::empty();
    let files: Vec<(String, Vec<u8>)> = Vec::new();
    assert_eq!(Ok(CheckResult::Changed), check_glob(Some(&state), "**/*.txt", &files));
}
