use git_tools::author::{
    after_search, avatar_url, contributor_key, display_login, enrich_author, github_from_noreply_email,
    interpret_search_response, interpret_user_response, lookup_github_user_by_email, merge_authors, parse_author_entry,
    profile_url, resolve_github_author, search_api_url, user_api_url, ApiError, AuthorMap, GithubAuthor, LookupStep,
};
use git_tools::git_cmd::parse_github_remote_repo;
use git_tools::gitmoji::{all_sections, leading_gitmoji, section_for_gitmoji, section_meta, strip_gitmoji, Section};
use git_tools::json::{JsonNumber, JsonValue};

fn author(id: Option<u64>, login: Option<&str>) -> GithubAuthor {
    GithubAuthor { id, login: login.map(|l| l.to_string()) }
}

fn object(members: Vec<(&str, JsonValue)>) -> JsonValue {
    JsonValue::Object(members.into_iter().map(|(k, v)| (k.to_string(), v)).collect())
}

fn num(n: u64) -> JsonValue {
    JsonValue::Number(JsonNumber::PosInt(n))
}

fn text(s: &str) -> JsonValue {
    JsonValue::Str(s.to_string())
}

#[test]
fn noreply_with_numeric_id() {
    let author = github_from_noreply_email("17541209+oovm@users.noreply.github.com").unwrap();
    assert_eq!(author.id, Some(17541209));
    assert_eq!(author.login.as_deref(), Some("oovm"));
}

#[test]
fn noreply_login_only() {
    let author = github_from_noreply_email("oovm@users.noreply.github.com").unwrap();
    assert_eq!(author.id, None);
    assert_eq!(author.login.as_deref(), Some("oovm"));
}

#[test]
fn parse_author_map_entry_object() {
    let entry = parse_author_entry(&object(vec![("id", num(17541209)), ("login", text("oovm"))])).unwrap();
    assert_eq!(entry.id, Some(17541209));
    assert_eq!(display_login(&entry), "oovm");
}

#[test]
fn gitmoji_section_and_strip() {
    let subject = "✨ Add `git-change-logs` binary";
    assert_eq!(leading_gitmoji(subject), Some("✨"));
    assert_eq!(strip_gitmoji(subject), "Add `git-change-logs` binary");
    assert_eq!(section_for_gitmoji(leading_gitmoji(subject)), Section::Features);
}

#[test]
fn detect_github_repo_from_https() {
    assert_eq!(
        parse_github_remote_repo("https://github.com/valkyrie-language/valkyrie.rs.git"),
        Some("valkyrie-language/valkyrie.rs".to_string())
    );
}

#[test]
fn noreply_rejects_other_addresses() {
    assert!(github_from_noreply_email("someone@example.com").is_none());
    assert!(github_from_noreply_email("").is_none());
}

#[test]
fn author_entry_with_login_only_and_invalid_shapes() {
    let entry = parse_author_entry(&object(vec![("login", text("octo"))])).unwrap();
    assert_eq!(entry.id, None);
    assert_eq!(entry.login.as_deref(), Some("octo"));
    assert_eq!(parse_author_entry(&text(" octo ")), Some(author(None, Some("octo"))));
    assert_eq!(parse_author_entry(&num(5)), Some(author(Some(5), None)));
    assert!(parse_author_entry(&text("  ")).is_none());
    assert!(parse_author_entry(&JsonValue::Bool(true)).is_none());
    assert!(parse_author_entry(&object(vec![("login", text(" "))])).is_none());
}

#[test]
fn display_and_url_rules() {
    let with_both = author(Some(7), Some("octo"));
    let id_only = author(Some(7), None);
    let login_only = author(None, Some("octo"));
    let nothing = author(None, None);
    assert_eq!(display_login(&id_only), "user-7");
    assert_eq!(display_login(&nothing), "unknown");
    assert_eq!(profile_url(&with_both), "https://github.com/octo");
    assert_eq!(profile_url(&id_only), "https://github.com/user/7");
    assert_eq!(profile_url(&nothing), "#");
    assert_eq!(avatar_url(&with_both), "https://avatars.githubusercontent.com/u/7?s=100");
    assert_eq!(avatar_url(&login_only), "https://github.com/octo.png?s=100");
    assert_eq!(avatar_url(&nothing), "");
    assert_eq!(contributor_key(&with_both).as_deref(), Some("id:7"));
    assert_eq!(contributor_key(&login_only).as_deref(), Some("login:octo"));
    assert_eq!(contributor_key(&nothing), None);
}

#[test]
fn merge_keeps_known_fields() {
    let merged = merge_authors(&author(Some(1), None), &author(Some(2), Some("b")));
    assert_eq!(merged, author(Some(1), Some("b")));
    let same = merge_authors(&author(Some(3), Some("c")), &author(Some(3), Some("c")));
    assert_eq!(same, author(Some(3), Some("c")));
}

#[test]
fn resolve_prefers_noreply_then_lower_cased_map() {
    let mut map = AuthorMap::new();
    map.insert("dev@example.com".to_string(), author(Some(9), Some("dev")));
    map.insert("12+oovm@users.noreply.github.com".to_string(), author(Some(1), Some("other")));
    assert_eq!(resolve_github_author("  DEV@Example.com ", &map), Some(author(Some(9), Some("dev"))));
    assert_eq!(resolve_github_author("12+oovm@users.noreply.github.com", &map), Some(author(Some(12), Some("oovm"))));
    assert_eq!(resolve_github_author("nobody@example.com", &map), None);
}

#[test]
fn author_map_insert_then_get() {
    let mut map = AuthorMap::new();
    assert!(map.get("a@x").is_none());
    map.insert("a@x".to_string(), author(Some(1), None));
    map.insert("a@x".to_string(), author(Some(2), None));
    map.insert("b@x".to_string(), author(Some(3), None));
    assert_eq!(map.get("a@x"), Some(author(Some(2), None)));
    assert_eq!(map.get("b@x"), Some(author(Some(3), None)));
}

#[test]
fn lookup_steps_follow_resolution_order() {
    let mut map = AuthorMap::new();
    map.insert("known@x".to_string(), author(None, Some("known")));
    map.insert("full@x".to_string(), author(Some(5), Some("full")));
    match lookup_github_user_by_email("42+oovm@users.noreply.github.com", &map, true, false) {
        LookupStep::Done(Some(a)) => assert_eq!(a, author(Some(42), Some("oovm"))),
        other => panic!("unexpected {:?}", other),
    }
    match lookup_github_user_by_email("oovm@users.noreply.github.com", &map, true, false) {
        LookupStep::Done(Some(a)) => assert_eq!(a, author(None, Some("oovm"))),
        other => panic!("unexpected {:?}", other),
    }
    match lookup_github_user_by_email("known@x", &map, false, false) {
        LookupStep::Done(Some(a)) => assert_eq!(a, author(None, Some("known"))),
        other => panic!("unexpected {:?}", other),
    }
    match lookup_github_user_by_email("known@x", &map, false, true) {
        LookupStep::Fetch { author: a, login } => {
            assert_eq!(a, author(None, Some("known")));
            assert_eq!(login, "known");
        }
        other => panic!("unexpected {:?}", other),
    }
    match lookup_github_user_by_email("full@x", &map, false, false) {
        LookupStep::Done(Some(a)) => assert_eq!(a, author(Some(5), Some("full"))),
        other => panic!("unexpected {:?}", other),
    }
    assert!(matches!(lookup_github_user_by_email("full@x", &map, false, true), LookupStep::Fetch { .. }));
    assert!(matches!(lookup_github_user_by_email("stranger@x", &map, true, false), LookupStep::Search));
    assert!(matches!(lookup_github_user_by_email("stranger@x", &map, false, false), LookupStep::Done(None)));
    assert!(matches!(after_search(None, true), LookupStep::Done(None)));
    assert!(matches!(enrich_author(author(None, None), true), LookupStep::Done(Some(_))));
}

#[test]
fn percent_encoding_of_utf8_bytes() {
    assert_eq!(git_tools::text::url_encode("é~ a-_.Z9"), "%C3%A9~%20a-_.Z9");
    assert_eq!(git_tools::text::url_encode(""), "");
}

#[test]
fn lines_drop_only_crlf_carriage_returns() {
    let chars: Vec<char> = "a\r\nb\r".chars().collect();
    let ls = git_tools::text::lines(&chars);
    assert_eq!(ls, vec![vec!['a'], vec!['b', '\r']]);
}

#[test]
fn api_urls() {
    assert_eq!(user_api_url("oovm"), "https://api.github.com/users/oovm");
    assert_eq!(search_api_url("a+b@x.org"), "https://api.github.com/search/users?q=a%2Bb%40x.org%20in%3Aemail");
}

#[test]
fn user_response_rules() {
    let body = object(vec![("id", num(17541209)), ("login", text("oovm"))]);
    let found = interpret_user_response("OOVM", 200, "OK", Ok(&body)).unwrap();
    assert_eq!(found, author(Some(17541209), Some("oovm")));
    let no_login = object(vec![("id", num(3))]);
    assert_eq!(interpret_user_response("asked", 200, "OK", Ok(&no_login)).unwrap(), author(Some(3), Some("asked")));
    assert!(matches!(interpret_user_response("x", 404, "Not Found", Err("eof")), Err(ApiError::NotFound(l)) if l == "x"));
    assert!(matches!(interpret_user_response("x", 500, "Oops", Err("eof")), Err(ApiError::Status(500, t)) if t == "Oops"));
    assert!(matches!(interpret_user_response("x", 200, "OK", Err("eof")), Err(ApiError::BadBody(e)) if e == "eof"));
}

#[test]
fn search_response_rules() {
    let body = object(vec![("items", JsonValue::Array(vec![object(vec![("id", num(8)), ("login", text("eight"))])]))]);
    assert_eq!(interpret_search_response(200, "OK", Ok(&body)).unwrap(), Some(author(Some(8), Some("eight"))));
    let empty = object(vec![("items", JsonValue::Array(vec![]))]);
    assert_eq!(interpret_search_response(200, "OK", Ok(&empty)).unwrap(), None);
    assert!(matches!(interpret_search_response(403, "Forbidden", Err("eof")), Err(ApiError::SearchStatus(403, _))));
    assert!(matches!(interpret_search_response(200, "OK", Err("eof")), Err(ApiError::SearchBadBody(e)) if e == "eof"));
}

#[test]
fn gitmoji_edge_cases() {
    assert_eq!(leading_gitmoji("✨Add"), None);
    assert_eq!(leading_gitmoji("plain subject"), None);
    assert_eq!(leading_gitmoji("♻️ Refactor"), Some("♻️"));
    assert_eq!(strip_gitmoji("  plain subject  "), "plain subject");
    assert_eq!(strip_gitmoji("🐛   Fix it"), "Fix it");
    assert_eq!(section_for_gitmoji(Some("🐛")), Section::Fixes);
    assert_eq!(section_for_gitmoji(Some("💥")), Section::Breaking);
    assert_eq!(section_for_gitmoji(Some("📝")), Section::Other);
    assert_eq!(section_for_gitmoji(None), Section::Other);
    assert_eq!(all_sections(), [Section::Features, Section::Fixes, Section::Breaking, Section::Other]);
    assert_eq!(section_meta(Section::Breaking), ("## ⚠️ Breaking Changes", "(none)"));
}

#[test]
fn remote_url_shapes() {
    assert_eq!(parse_github_remote_repo("git@github.com:oovm/git-tools.git"), Some("oovm/git-tools".to_string()));
    assert_eq!(parse_github_remote_repo("ssh://git@github.com/oovm/git-tools/"), Some("oovm/git-tools".to_string()));
    assert_eq!(parse_github_remote_repo("https://gitlab.com/oovm/git-tools"), None);
    assert_eq!(parse_github_remote_repo("https://github.com/oovm"), None);
}
