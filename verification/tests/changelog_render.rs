use git_tools::author::{AuthorMap, GithubAuthor};
use git_tools::git_cmd::{
    collect_commits, commit_range, detect_github_repo, format_tag_list, is_hex_oid, list_version_tags,
    normalize_version, previous_version_tag, resolve_range, verify_commit_ref, version_tag, RangeError,
};
use git_tools::gitmoji::Section;
use git_tools::render::{
    author_mention, collect_contributors_from_commits, commit_bullet, group_commits, render_contributor_wall,
    render_reference,
};

fn tags(v: &[&str]) -> Vec<String> {
    v.iter().map(|s| s.to_string()).collect()
}

fn author(id: Option<u64>, login: Option<&str>) -> GithubAuthor {
    GithubAuthor { id, login: login.map(|l| l.to_string()) }
}

#[test]
fn version_names() {
    assert_eq!(normalize_version("vv1.2.3"), "1.2.3");
    assert_eq!(version_tag("1.2.3"), "v1.2.3");
    assert_eq!(version_tag("v1.2.3"), "v1.2.3");
    assert_eq!(verify_commit_ref("v1.0.0"), "v1.0.0^{commit}");
    assert_eq!(commit_range(Some("v1"), "v2"), "v1..v2");
    assert_eq!(commit_range(None, "v2"), "v2");
}

#[test]
fn tag_listing() {
    assert_eq!(list_version_tags("v0.1.0\nv0.2.0\n\n"), tags(&["v0.1.0", "v0.2.0"]));
    assert!(list_version_tags("").is_empty());
    assert_eq!(format_tag_list(&tags(&[]), &tags(&[])), "(no v* tags)");
    assert_eq!(format_tag_list(&tags(&["v1", "v2"]), &tags(&["abc", "def"])), "v1\tabc\nv2\tdef");
}

#[test]
fn previous_tag_rules() {
    let all = tags(&["v0.1.0", "v0.2.0", "v0.2.1"]);
    assert_eq!(previous_version_tag(&all, "0.2.0"), Some("v0.1.0".to_string()));
    assert_eq!(previous_version_tag(&all, "v0.1.0"), None);
    assert_eq!(previous_version_tag(&all, "0.2.2"), Some("v0.2.1".to_string()));
    assert_eq!(previous_version_tag(&all, "0.3.0"), None);
    assert_eq!(previous_version_tag(&all, "0.2"), None);
}

#[test]
fn range_resolution() {
    let all = tags(&["v0.1.0", "v0.2.0"]);
    let plan = resolve_range(Some("0.2.0"), None, None, &all).unwrap();
    assert_eq!(plan.version, "0.2.0");
    assert_eq!(plan.from.as_deref(), Some("v0.1.0"));
    assert_eq!(plan.to, "v0.2.0");
    assert_eq!(plan.refs_to_verify, tags(&["v0.2.0"]));
    let explicit = resolve_range(None, Some("v0.1.0"), Some("0.2.0"), &all).unwrap();
    assert_eq!(explicit.to, "v0.2.0");
    assert_eq!(explicit.version, "0.2.0");
    assert_eq!(explicit.from.as_deref(), Some("v0.1.0"));
    assert_eq!(explicit.refs_to_verify, tags(&["v0.2.0", "v0.1.0"]));
    let by_hash = resolve_range(None, None, Some("abcdef1"), &all).unwrap();
    assert_eq!(by_hash.to, "abcdef1");
    assert_eq!(by_hash.version, "abcdef1");
    assert!(matches!(resolve_range(None, Some("v1"), None, &all), Err(RangeError::MissingRange)));
}

#[test]
fn hex_ids() {
    assert!(is_hex_oid(&"abcdef1".chars().collect::<Vec<_>>()));
    assert!(!is_hex_oid(&"abcde".chars().collect::<Vec<_>>()));
    assert!(!is_hex_oid(&"abcdefg".chars().collect::<Vec<_>>()));
}

#[test]
fn origin_detection() {
    assert_eq!(detect_github_repo(Some("git@github.com:a/b.git\n")), Some("a/b".to_string()));
    assert_eq!(detect_github_repo(None), None);
}

#[test]
fn log_lines_become_entries() {
    let out = "h1\u{1f}a@x\u{1f}Ann\u{1f}✨ Add thing\nh2\u{1f}b@x\u{1f}Bob\u{1f}plain fix\n";
    let commits = collect_commits(out);
    assert_eq!(commits.len(), 2);
    assert_eq!(commits[0].hash, "h1");
    assert_eq!(commits[0].email, "a@x");
    assert_eq!(commits[0].author, "Ann");
    assert_eq!(commits[0].body, "Add thing");
    assert_eq!(commits[0].gitmoji, Some("✨"));
    assert_eq!(commits[0].section, Section::Features);
    assert_eq!(commits[1].gitmoji, None);
    assert_eq!(commits[1].section, Section::Other);
    assert!(collect_commits("").is_empty());
}

#[test]
fn grouping_and_bullets() {
    let out = "h1\u{1f}a@x\u{1f}Ann Lee\u{1f}🐛 Fix crash\nh2\u{1f}12+oct@users.noreply.github.com\u{1f}O\u{1f}✨ New\nh3\u{1f}c@x\u{1f}  \u{1f}📝 Docs\n";
    let commits = collect_commits(out);
    let groups = group_commits(&commits);
    assert_eq!(groups.len(), 4);
    assert_eq!(groups[0].0, Section::Features);
    assert_eq!(groups[0].1.len(), 1);
    assert_eq!(groups[1].0, Section::Fixes);
    assert_eq!(groups[1].1[0].hash, "h1");
    assert_eq!(groups[2].1.len(), 0);
    assert_eq!(groups[3].1.len(), 1);
    let map = AuthorMap::new();
    assert_eq!(commit_bullet(&commits[0], &map), "- Fix crash (@AnnLee)");
    assert_eq!(commit_bullet(&commits[1], &map), "- New ([@oct](https://github.com/oct))");
    assert_eq!(author_mention("c@x", "  ", &map), "@c");
    assert_eq!(author_mention("@x", "", &map), "@unknown");
}

#[test]
fn contributors_are_merged_and_sorted() {
    let mut map = AuthorMap::new();
    map.insert("z@x".to_string(), author(Some(2), None));
    map.insert("y@x".to_string(), author(Some(2), Some("zed")));
    map.insert("a@x".to_string(), author(None, Some("amy")));
    let out = "h1\u{1f}z@x\u{1f}Z\u{1f}s\nh2\u{1f}y@x\u{1f}Y\u{1f}s\nh3\u{1f}a@x\u{1f}A\u{1f}s\nh4\u{1f}q@x\u{1f}Q\u{1f}s\n";
    let commits = collect_commits(out);
    let people = collect_contributors_from_commits(&commits, &map);
    assert_eq!(people, vec![author(None, Some("amy")), author(Some(2), Some("zed"))]);
}

#[test]
fn contributor_wall_layouts() {
    assert!(render_contributor_wall(&vec![], "o/r").starts_with("(none — no GitHub login"));
    let one = vec![author(Some(1), Some("a"))];
    assert_eq!(
        render_contributor_wall(&one, "o/r"),
        "<table>\n<tbody>\n<tr>\n<td align=\"center\"><a href=\"https://github.com/a\"><img src=\"https://avatars.githubusercontent.com/u/1?s=100\" width=\"64\" height=\"64\" alt=\"@a\"/><br /><sub><b>a</b></sub></a></td>\n</tr>\n</tbody>\n</table>"
    );
    let many: Vec<GithubAuthor> = (0..13).map(|i| author(Some(i), Some(&format!("u{i}")))).collect();
    let wall = render_contributor_wall(&many, "o/r");
    assert!(wall.starts_with("<a href=\"https://github.com/o/r/graphs/contributors\">"));
    assert!(wall.contains("users=u0,u1,u2,u3,u4,u5,u6,u7,u8,u9,u10,u11,u12&columns=9"));
    let ids_only: Vec<GithubAuthor> = (0..13).map(|i| author(Some(i), None)).collect();
    assert!(render_contributor_wall(&ids_only, "o/r").starts_with("(none — contributors have numeric ids only"));
    let seven: Vec<GithubAuthor> = (0..7).map(|i| author(Some(i), Some("p"))).collect();
    let table = render_contributor_wall(&seven, "o/r");
    assert_eq!(table.matches("<tr>").count(), 2);
}

#[test]
fn reference_document() {
    let commits = collect_commits("h1\u{1f}a@x\u{1f}Ann\u{1f}✨ Add thing\n");
    let groups = group_commits(&commits);
    let map = AuthorMap::new();
    let doc = render_reference("1.0.0", Some("v0.9.0"), "v1.0.0", &groups, "WALL", 1, &map);
    let expected = "# Reference: v1.0.0 (`v0.9.0..v1.0.0`)\n\n> Commit index for drafting `documentation/maintenance/releases/v1.0.0.md`. Temporary file — do not commit or publish as the GitHub Release body.\n\n## ✨ Features\n\n- Add thing (@Ann)\n\n## 🐛 Bug Fixes\n\n(none)\n\n## ⚠️ Breaking Changes\n\n(none)\n\n## 📝 Other\n\n(none)\n\n## 👥 Contributors\n\nWALL\n\n---\n\n1 commit(s) in range.\n";
    assert_eq!(doc, expected);
}

#[test]
fn every_commit_lands_in_one_group() {
    let out = "a\u{1f}e\u{1f}n\u{1f}✨ x\nb\u{1f}e\u{1f}n\u{1f}🐛 y\nc\u{1f}e\u{1f}n\u{1f}💥 z\nd\u{1f}e\u{1f}n\u{1f}w\ne\u{1f}e\u{1f}n\u{1f}🚀 v\n";
    let commits = collect_commits(out);
    let groups = group_commits(&commits);
    let total: usize = groups.iter().map(|g| g.1.len()).sum();
    assert_eq!(total, commits.len());
    assert_eq!(groups[0].1.iter().map(|c| c.hash.as_str()).collect::<Vec<_>>(), vec!["a", "e"]);
    assert_eq!(groups[2].1[0].hash, "c");
    assert_eq!(groups[3].1[0].hash, "d");
}
