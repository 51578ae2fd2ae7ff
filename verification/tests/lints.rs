use git_tools::lint::{duplicate_subjects, lint_message};

fn pairs(subjects: &[&str]) -> Vec<(String, String)> {
    subjects.iter().enumerate().map(|(i, s)| (format!("h{i}"), s.to_string())).collect()
}

#[test]
fn empty_subject_is_reported_alone() {
    let issues = lint_message("\n\nbody only", "abc12345");
    assert_eq!(issues.len(), 1);
    assert_eq!(issues[0].label, "abc12345");
    assert_eq!(issues[0].detail, "subject is empty");
    assert_eq!(lint_message("", "x")[0].detail, "subject is empty");
}

fn details(raw: &str) -> Vec<String> {
    let issues = lint_message(raw, "abc12345");
    assert!(issues.iter().all(|i| i.label == "abc12345"));
    issues.into_iter().map(|i| i.detail).collect()
}

#[test]
fn plain_subject_misses_gitmoji_and_ends_with_period() {
    assert_eq!(
        details("Fix bug."),
        vec!["subject must start with a gitmoji character", "subject must not end with a period"]
    );
}

#[test]
fn clean_message_has_no_issues() {
    assert!(details("✨ Add parser\n\nHandles nested blocks.").is_empty());
}

#[test]
fn each_rule_in_order() {
    assert_eq!(
        details("✨ Add parser; phase 2 TS 0.3.1\n"),
        vec![
            "must not contain semicolons",
            "must not contain internal milestone codes",
            "write TypeScript in full instead of bare TS",
            "avoid version numbers in commit messages",
        ]
    );
    assert_eq!(details("🐛 Fix\n\nbody；with fullwidth"), vec!["must not contain semicolons"]);
    assert!(details("🐛 Port TSX and TSLint helpers").is_empty());
    assert_eq!(details("🐛 Port the TS code"), vec!["write TypeScript in full instead of bare TS"]);
    assert!(details("🐛 Bump to 1.2.3").is_empty());
}

#[test]
fn repeated_subjects_in_first_seen_order() {
    let out = duplicate_subjects(&pairs(&["b", "a", "b", "c", "a", "b"]));
    assert_eq!(out, vec!["duplicate subject (3x): b".to_string(), "duplicate subject (2x): a".to_string()]);
    assert!(duplicate_subjects(&pairs(&["x", "y"])).is_empty());
    assert!(duplicate_subjects(&pairs(&[])).is_empty());
}
