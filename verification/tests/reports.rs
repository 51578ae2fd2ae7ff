use git_tools::author::{ApiError, GithubAuthor};
use git_tools::git_cmd::RangeError;
use git_tools::map::MapError;
use git_tools::retime::RetimeError;
use git_tools::json::{JsonNumber, JsonValue};
use git_tools::oid::ObjectId;
use git_tools::report::{
    author_json, dry_run_report, export_map_text, qualified_ref_name, reference_file_name, retime_reflog_message,
    rewrite_reflog_message, rewrite_report,
};
use git_tools::rewrite::{PlannedChange, RewriteError};

fn oid(n: u8) -> ObjectId {
    ObjectId::from_bytes(vec![n; 20])
}

fn change(n: u8, old: &str, new: &str, relinked: bool, changed: bool) -> PlannedChange {
    PlannedChange {
        old_oid: oid(n),
        old_subject: old.to_string(),
        new_subject: new.to_string(),
        parents_relinked: relinked,
        message_changed: changed,
    }
}

#[test]
fn ref_names() {
    assert_eq!(qualified_ref_name("dev"), "refs/heads/dev");
    assert_eq!(qualified_ref_name("refs/tags/v1"), "refs/tags/v1");
    assert_eq!(reference_file_name("1.2.3"), "v1.2.3.reference.md");
}

#[test]
fn dry_run_lines() {
    assert_eq!(dry_run_report(&vec![], "dev"), vec!["dry-run: no commit objects need rewriting".to_string()]);
    let changes = vec![change(0x11, "old a", "new a", false, true), change(0x22, "b", "b", true, false)];
    let lines = dry_run_report(&changes, "dev");
    let expected: Vec<String> = vec![
        "dry-run: 2 commit object(s) would be rewritten on dev",
        "",
        "11111111  old a",
        "     ->  new a",
        "",
        "22222222  b",
        "     ->  b",
        "     (parent chain relink only)",
        "",
    ]
    .into_iter()
    .map(String::from)
    .collect();
    assert_eq!(lines, expected);
}

#[test]
fn rewrite_lines() {
    assert!(matches!(rewrite_report(&vec![], &oid(1), &oid(2)), Err(RewriteError::NothingRewritten)));
    let lines = rewrite_report(&vec![change(0x33, "x", "y", false, true)], &oid(0xaa), &oid(0xbb)).unwrap();
    assert_eq!(lines, vec!["rewrote 1 commit object(s); aaaaaaaa -> bbbbbbbb".to_string(), "  33333333  y".to_string()]);
}

#[test]
fn map_template_text() {
    let text = export_map_text(&vec![(oid(0x01), "✨ First".to_string()), (oid(0x02), "Second\n\nBody".to_string())]);
    let expected = format!(
        "# Hash-keyed reword map (2 commit(s)). Delete unchanged blocks before rewrite.\n\n{}\n✨ First\n\n---\n\n{}\nSecond\n\nBody\n\n---\n\n",
        "01".repeat(20),
        "02".repeat(20)
    );
    assert_eq!(text, expected);
    let parsed = git_tools::map::parse_map_file(&text).unwrap();
    assert_eq!(
        parsed,
        vec![("01".repeat(20), "✨ First".to_string()), ("02".repeat(20), "Second\n\nBody".to_string())]
    );
}

#[test]
fn map_template_reads_back_trimmed_messages() {
    let text = export_map_text(&vec![
        (oid(0xab), "✨ First\n".to_string()),
        (oid(0xcd), "  Second\n\nBody  \n\n".to_string()),
    ]);
    let parsed = git_tools::map::parse_map_file(&text).unwrap();
    assert_eq!(
        parsed,
        vec![("ab".repeat(20), "✨ First".to_string()), ("cd".repeat(20), "Second\n\nBody".to_string())]
    );
}

#[test]
fn reflog_messages() {
    assert_eq!(retime_reflog_message("time-travel", &oid(0x0c)), "git-retime: update time-travel to 0c0c0c0c");
    assert_eq!(rewrite_reflog_message(&oid(1), &oid(2)), "git-reword: rewrite 01010101..02020202");
}

#[test]
fn lookup_answer_object() {
    let full = author_json(&GithubAuthor { id: Some(17541209), login: Some("oovm".to_string()) });
    match full {
        JsonValue::Object(m) => {
            assert_eq!(m.len(), 2);
            assert_eq!(m[0].0, "id");
            assert!(matches!(m[0].1, JsonValue::Number(JsonNumber::PosInt(17541209))));
            assert_eq!(m[1].0, "login");
            assert!(matches!(&m[1].1, JsonValue::Str(s) if s == "oovm"));
        }
        _ => panic!("not an object"),
    }
    assert!(matches!(author_json(&GithubAuthor { id: None, login: None }), JsonValue::Object(m) if m.is_empty()));
}

#[test]
fn error_messages() {
    assert_eq!(RetimeError::DateParse.message(), "date parse failed");
    assert_eq!(
        RetimeError::TimestampCount { expected: 3, got: 1 }.message(),
        "need 3 timestamp(s) for retime range but got 1"
    );
    assert_eq!(MapError::PrefixNotFound("abc".to_string()).message(), "hash prefix not found in range: abc");
    assert_eq!(MapError::NotAMap.message(), "parse reword map json");
    assert_eq!(MapError::NoEntries.message(), "no commit entries in reword map json");
    assert_eq!(MapError::BadHash("zz".to_string()).message(), "expected commit hash: zz");
    assert_eq!(MapError::MissingMessage("abcdef12".to_string()).message(), "missing message for commit hash: abcdef12");
    assert_eq!(MapError::NoBlocks.message(), "no commit blocks in map file");
    assert_eq!(MapError::BadHashLine("not \"hex\"".to_string()).message(), "expected commit hash, got \"not \\\"hex\\\"\"");
    assert_eq!(MapError::MissingBlockMessage("abc12345".to_string()).message(), "missing message for abc12345");
    assert_eq!(git_tools::map::parse_map_file("# only\n---\n").unwrap_err().message(), "no commit blocks in map file");
    assert_eq!(RewriteError::NothingRewritten.message(), "no commit objects were rewritten");
    assert_eq!(ApiError::Status(502, "Bad Gateway".to_string()).message(), "GitHub API returned an error status: 502 Bad Gateway");
    assert_eq!(
        ApiError::SearchStatus(403, "Forbidden".to_string()).message(),
        "GitHub search API returned an error status: 403 Forbidden"
    );
    assert_eq!(ApiError::BadBody("eof".to_string()).message(), "parse GitHub API JSON: eof");
    assert_eq!(ApiError::SearchBadBody("eof".to_string()).message(), "parse GitHub search JSON: eof");
    assert_eq!(ApiError::NotFound("oovm".to_string()).message(), "GitHub user not found: oovm");
    assert_eq!(RangeError::MissingRange.message(), "need --version=X.Y.Z or --to=REF (optional --from=REF)");
}
