//! Markdown of the release reference: commit bullets grouped by section,
//! the contributor wall, and the whole document.

use vstd::prelude::*;

use crate::author::{
    avatar_url, avatar_url_spec, contributor_key, contributor_key_spec, display_login,
    display_login_spec, merge_authors, merge_spec, profile_url, profile_url_spec, resolve_author_spec,
    resolve_github_author, AuthorMap, AuthorView, GithubAuthor,
};
use crate::git_cmd::{range_spec, CommitEntry};
use crate::gitmoji::{all_sections, section_meta, section_order, Section};
use crate::map::{join_lines, join_seq};
use crate::text::{append, chars_of, decimal, decimal_seq, split_seq, string_of, trim, trim_seq, views};

verus! {

/// The commits of section `s` among the first `n`, in order.
pub open spec fn in_section(commits: Seq<CommitEntry>, s: Section, n: nat) -> Seq<CommitEntry>
    decreases n,
{
    if n == 0 {
        Seq::empty()
    } else {
        let prev = in_section(commits, s, (n - 1) as nat);
        if commits[n - 1].section == s {
            prev.push(commits[n - 1])
        } else {
            prev
        }
    }
}

/// Grouping loses and repeats no commit: the four sections' groups
/// together hold each of the first `n` commits exactly once.
pub proof fn grouping_keeps_every_commit(commits: Seq<CommitEntry>, n: nat)
    requires
        n <= commits.len(),
    ensures
        in_section(commits, Section::Features, n).len() + in_section(commits, Section::Fixes, n).len()
            + in_section(commits, Section::Breaking, n).len() + in_section(commits, Section::Other, n).len() == n,
    decreases n,
{
    if n > 0 {
        grouping_keeps_every_commit(commits, (n - 1) as nat);
        match commits[n - 1].section {
            Section::Features => {},
            Section::Fixes => {},
            Section::Breaking => {},
            Section::Other => {},
        }
    }
}

/// Groups commits by section: one group per section, in release order,
/// each holding that section's commits in their original order.
pub fn group_commits<'a>(commits: &'a Vec<CommitEntry>) -> (r: Vec<(Section, Vec<&'a CommitEntry>)>)
    ensures
        r@.len() == 4,
        forall|k: int| 0 <= k < 4 ==> (#[trigger] r@[k]).0 == section_order()[k],
        forall|k: int| 0 <= k < 4 ==> (#[trigger] r@[k]).1@.map_values(|c: &CommitEntry| *c) == in_section(commits@, section_order()[k], commits@.len()),
{
    let sections = all_sections();
    let mut r: Vec<(Section, Vec<&'a CommitEntry>)> = Vec::new();
    let mut k: usize = 0;
    while k < 4
        invariant
            k <= 4,
            sections@ == section_order(),
            r@.len() == k,
            forall|m: int| 0 <= m < k ==> (#[trigger] r@[m]).0 == section_order()[m],
            forall|m: int| 0 <= m < k ==> (#[trigger] r@[m]).1@.map_values(|c: &CommitEntry| *c) == in_section(commits@, section_order()[m], commits@.len()),
        decreases 4 - k,
    {
        let s = sections[k];
        let mut items: Vec<&'a CommitEntry> = Vec::new();
        let mut i: usize = 0;
        assert(items@.map_values(|c: &CommitEntry| *c) =~= Seq::<CommitEntry>::empty());
        while i < commits.len()
            invariant
                i <= commits@.len(),
                items@.map_values(|c: &CommitEntry| *c) == in_section(commits@, s, i as nat),
            decreases commits@.len() - i,
        {
            let ghost prev = items@;
            if commits[i].section == s {
                items.push(&commits[i]);
                assert(items@.map_values(|c: &CommitEntry| *c) == prev.map_values(|c: &CommitEntry| *c).push(commits@[i as int]));
            }
            i = i + 1;
        }
        r.push((s, items));
        k = k + 1;
    }
    r
}

/// `s` without its spaces (`str::replace(' ', "")`).
pub open spec fn remove_spaces(s: Seq<char>) -> Seq<char>
    decreases s.len(),
{
    if s.len() == 0 {
        Seq::empty()
    } else if s.last() == ' ' {
        remove_spaces(s.drop_last())
    } else {
        remove_spaces(s.drop_last()).push(s.last())
    }
}

/// How a commit's author is mentioned: a link to the GitHub profile when
/// the author is known, else `@name` (spaces removed), else `@` and the
/// e-mail's local part, else `@unknown`.
pub open spec fn mention_spec(email: Seq<char>, author_name: Seq<char>, map: Map<Seq<char>, AuthorView>) -> Seq<char> {
    match resolve_author_spec(email, map) {
        Some(a) => "[@"@ + display_login_spec(a) + "]("@ + profile_url_spec(a) + ")"@,
        None => {
            let name = trim_seq(author_name);
            if name.len() > 0 {
                "@"@ + remove_spaces(name)
            } else {
                let local = trim_seq(split_seq(email, seq!['@'])[0]);
                if local.len() > 0 {
                    "@"@ + local
                } else {
                    "@unknown"@
                }
            }
        },
    }
}

fn remove_spaces_exec(v: &[char]) -> (r: Vec<char>)
    ensures
        r@ == remove_spaces(v@),
{
    let mut r: Vec<char> = Vec::new();
    let mut i: usize = 0;
    while i < v.len()
        invariant
            i <= v@.len(),
            r@ == remove_spaces(v@.subrange(0, i as int)),
        decreases v@.len() - i,
    {
        assert(v@.subrange(0, i + 1).drop_last() == v@.subrange(0, i as int));
        if v[i] != ' ' {
            r.push(v[i]);
        }
        i = i + 1;
    }
    assert(v@.subrange(0, v@.len() as int) == v@);
    r
}

fn lit(s: &str) -> (r: Vec<char>)
    ensures
        r@ == s@,
{
    chars_of(s)
}

/// Mentions the author of a commit in Markdown.
pub fn author_mention(email: &str, author_name: &str, map: &AuthorMap) -> (r: String)
    ensures
        r@ == mention_spec(email@, author_name@, map@),
{
    match resolve_github_author(email, map) {
        Some(a) => {
            let mut v = lit("[@");
            append(&mut v, &chars_of(display_login(&a).as_str()));
            append(&mut v, &lit("]("));
            append(&mut v, &chars_of(profile_url(&a).as_str()));
            append(&mut v, &lit(")"));
            string_of(&v)
        },
        None => {
            let name = trim(&chars_of(author_name));
            if name.len() > 0 {
                let mut v = lit("@");
                append(&mut v, &remove_spaces_exec(&name));
                return string_of(&v);
            }
            let mut at: Vec<char> = Vec::new();
            at.push('@');
            assert(at@ == seq!['@']);
            let parts = crate::text::split(&chars_of(email), &at);
            assert(views(parts@).len() == parts@.len());
            assert(split_seq(email@, seq!['@']).len() > 0) by {
                reveal_with_fuel(split_seq, 2);
            }
            assert(views(parts@)[0] == parts@[0]@);
            let local = trim(&parts[0]);
            if local.len() > 0 {
                let mut v = lit("@");
                append(&mut v, &local);
                string_of(&v)
            } else {
                string_of(&lit("@unknown"))
            }
        },
    }
}

/// The bullet of a commit: `- <subject without gitmoji> (<mention>)`.
pub open spec fn bullet_spec(c: CommitEntry, map: Map<Seq<char>, AuthorView>) -> Seq<char> {
    "- "@ + c.body@ + " ("@ + mention_spec(c.email@, c.author@, map) + ")"@
}

/// One Markdown bullet for a commit.
pub fn commit_bullet(commit: &CommitEntry, map: &AuthorMap) -> (r: String)
    ensures
        r@ == bullet_spec(*commit, map@),
{
    let mut v = lit("- ");
    append(&mut v, &chars_of(commit.body.as_str()));
    append(&mut v, &lit(" ("));
    append(&mut v, &chars_of(author_mention(commit.email.as_str(), commit.author.as_str(), map).as_str()));
    append(&mut v, &lit(")"));
    string_of(&v)
}

/// The commits a group list holds for `s`: those of the first group of
/// that section, or none.
pub open spec fn group_items(groups: Seq<(Section, Vec<&CommitEntry>)>, s: Section) -> Seq<CommitEntry>
    decreases groups.len(),
{
    if groups.len() == 0 {
        Seq::empty()
    } else if groups[0].0 == s {
        groups[0].1@.map_values(|c: &CommitEntry| *c)
    } else {
        group_items(groups.drop_first(), s)
    }
}

/// The heading of a section.
pub open spec fn heading_spec(s: Section) -> Seq<char> {
    match s {
        Section::Features => "## \u{2728} Features"@,
        Section::Fixes => "## \u{1f41b} Bug Fixes"@,
        Section::Breaking => "## \u{26a0}\u{fe0f} Breaking Changes"@,
        Section::Other => "## \u{1f4dd} Other"@,
    }
}

/// The bullets of `items`, in order.
pub open spec fn bullets_spec(items: Seq<CommitEntry>, map: Map<Seq<char>, AuthorView>) -> Seq<Seq<char>> {
    items.map_values(|c: CommitEntry| bullet_spec(c, map))
}

/// The lines of one section: heading, blank, then its bullets or
/// `(none)`, then a blank.
pub open spec fn section_block(groups: Seq<(Section, Vec<&CommitEntry>)>, map: Map<Seq<char>, AuthorView>, s: Section) -> Seq<Seq<char>> {
    let items = group_items(groups, s);
    seq![heading_spec(s), Seq::empty()] + if items.len() == 0 {
        seq!["(none)"@, Seq::empty()]
    } else {
        bullets_spec(items, map).push(Seq::empty())
    }
}

/// Every line of the reference document.
pub open spec fn reference_lines(
    version: Seq<char>,
    range_label: Seq<char>,
    groups: Seq<(Section, Vec<&CommitEntry>)>,
    contributors: Seq<char>,
    commit_count: nat,
    map: Map<Seq<char>, AuthorView>,
) -> Seq<Seq<char>> {
    seq![
        "# Reference: v"@ + version + " (`"@ + range_label + "`)"@,
        Seq::empty(),
        "> Commit index for drafting `documentation/maintenance/releases/v"@ + version
            + ".md`. Temporary file \u{2014} do not commit or publish as the GitHub Release body."@,
        Seq::empty(),
    ] + section_block(groups, map, Section::Features) + section_block(groups, map, Section::Fixes)
        + section_block(groups, map, Section::Breaking) + section_block(groups, map, Section::Other)
        + seq![
        "## \u{1f465} Contributors"@,
        Seq::empty(),
        contributors,
        Seq::empty(),
        "---"@,
        Seq::empty(),
        decimal_seq(commit_count) + " commit(s) in range."@,
        Seq::empty(),
    ]
}

fn group_items_exec<'a, 'b>(groups: &'b Vec<(Section, Vec<&'a CommitEntry>)>, s: Section) -> (r: Option<&'b Vec<&'a CommitEntry>>)
    ensures
        match r {
            Some(v) => v@.map_values(|c: &CommitEntry| *c) == group_items(groups@, s),
            None => group_items(groups@, s) == Seq::<CommitEntry>::empty(),
        },
{
    let mut i: usize = 0;
    assert(groups@.subrange(0, groups@.len() as int) == groups@);
    while i < groups.len()
        invariant
            i <= groups@.len(),
            group_items(groups@, s) == group_items(groups@.subrange(i as int, groups@.len() as int), s),
        decreases groups@.len() - i,
    {
        let ghost rest = groups@.subrange(i as int, groups@.len() as int);
        if groups[i].0 == s {
            assert(rest[0] == groups@[i as int]);
            return Some(&groups[i].1);
        }
        assert(rest.drop_first() == groups@.subrange(i + 1, groups@.len() as int));
        i = i + 1;
    }
    None
}

fn push_section_block(lines: &mut Vec<Vec<char>>, groups: &Vec<(Section, Vec<&CommitEntry>)>, map: &AuthorMap, s: Section)
    ensures
        views(final(lines)@) == views(old(lines)@) + section_block(groups@, map@, s),
{
    let ghost start = views(lines@);
    let (heading, empty) = section_meta(s);
    lines.push(chars_of(heading));
    lines.push(Vec::new());
    let ghost mid = views(lines@);
    assert(mid == start + seq![heading_spec(s), Seq::<char>::empty()]);
    let items = group_items_exec(groups, s);
    let n = match items {
        Some(v) => v.len(),
        None => 0,
    };
    if n == 0 {
        lines.push(chars_of(empty));
        lines.push(Vec::new());
        assert(views(lines@) == mid + seq!["(none)"@, Seq::<char>::empty()]);
        assert(group_items(groups@, s).len() == 0);
        assert(views(lines@) =~= start + section_block(groups@, map@, s));
    } else {
        let v = match items {
            Some(v) => v,
            None => {
                return;
            },
        };
        let ghost it = group_items(groups@, s);
        let mut i: usize = 0;
        while i < v.len()
            invariant
                i <= v@.len(),
                it == v@.map_values(|c: &CommitEntry| *c),
                it == group_items(groups@, s),
                mid == start + seq![heading_spec(s), Seq::<char>::empty()],
                v@.len() > 0,
                views(lines@) == mid + bullets_spec(it, map@).subrange(0, i as int),
            decreases v@.len() - i,
        {
            let b = commit_bullet(v[i], map);
            let ghost prev = views(lines@);
            lines.push(chars_of(b.as_str()));
            assert(views(lines@) == prev.push(b@));
            assert(bullets_spec(it, map@).subrange(0, i + 1) == bullets_spec(it, map@).subrange(0, i as int).push(bullet_spec(it[i as int], map@)));
            i = i + 1;
        }
        assert(bullets_spec(it, map@).subrange(0, v@.len() as int) == bullets_spec(it, map@));
        let ghost before_last = views(lines@);
        lines.push(Vec::new());
        assert(views(lines@) == before_last.push(Seq::<char>::empty()));
        assert(it.len() > 0);
        assert(views(lines@) =~= start + section_block(groups@, map@, s));
    }
}

fn push_line(lines: &mut Vec<Vec<char>>, line: Vec<char>)
    ensures
        views(final(lines)@) == views(old(lines)@).push(line@),
{
    lines.push(line);
}

fn cat(a: &[char], b: &[char]) -> (r: Vec<char>)
    ensures
        r@ == a@ + b@,
{
    let mut v = crate::text::slice_chars(a, 0, a.len());
    append(&mut v, b);
    v
}

/// Renders the whole reference document: title with the range, the note,
/// the four sections, the contributor block and the commit count, one
/// line each, joined by newlines.
pub fn render_reference(
    version: &str,
    from_ref: Option<&str>,
    to_ref: &str,
    groups: &Vec<(Section, Vec<&CommitEntry>)>,
    contributors: &str,
    commit_count: usize,
    map: &AuthorMap,
) -> (r: String)
    ensures
        r@ == join_seq(
            reference_lines(
                version@,
                range_spec(match from_ref {
                    Some(f) => Some(f@),
                    None => None,
                }, to_ref@),
                groups@,
                contributors@,
                commit_count as nat,
                map@,
            ),
            seq!['\n'],
        ),
{
    let range_label = crate::git_cmd::commit_range(from_ref, to_ref);
    let v = chars_of(version);
    let mut lines: Vec<Vec<char>> = Vec::new();
    push_line(&mut lines, cat(&cat(&cat(&cat(&lit("# Reference: v"), &v), &lit(" (`")), &chars_of(range_label.as_str())), &lit("`)")));
    push_line(&mut lines, Vec::new());
    push_line(&mut lines, cat(&cat(&lit("> Commit index for drafting `documentation/maintenance/releases/v"), &v), &lit(".md`. Temporary file \u{2014} do not commit or publish as the GitHub Release body.")));
    push_line(&mut lines, Vec::new());
    push_section_block(&mut lines, groups, map, Section::Features);
    push_section_block(&mut lines, groups, map, Section::Fixes);
    push_section_block(&mut lines, groups, map, Section::Breaking);
    push_section_block(&mut lines, groups, map, Section::Other);
    push_line(&mut lines, lit("## \u{1f465} Contributors"));
    push_line(&mut lines, Vec::new());
    push_line(&mut lines, chars_of(contributors));
    push_line(&mut lines, Vec::new());
    push_line(&mut lines, lit("---"));
    push_line(&mut lines, Vec::new());
    push_line(&mut lines, cat(&decimal(commit_count as u64), &lit(" commit(s) in range.")));
    push_line(&mut lines, Vec::new());
    let ghost expected = reference_lines(
        version@,
        range_spec(match from_ref {
            Some(f) => Some(f@),
            None => None,
        }, to_ref@),
        groups@,
        contributors@,
        commit_count as nat,
        map@,
    );
    assert(views(lines@) =~= expected);
    assert(views(lines@).subrange(0, lines@.len() as int) == views(lines@));
    string_of(&join_lines(&lines, 0))
}

/// Lexicographic order of character sequences by code point (the order
/// of `String`, whose UTF-8 bytes compare in the same order).
pub open spec fn lex_lt(a: Seq<char>, b: Seq<char>) -> bool
    decreases a.len(),
{
    if b.len() == 0 {
        false
    } else if a.len() == 0 {
        true
    } else if a[0] < b[0] {
        true
    } else if a[0] > b[0] {
        false
    } else {
        lex_lt(a.drop_first(), b.drop_first())
    }
}

/// Order of contributors: by shown login, then by de-duplication key.
pub open spec fn contrib_lt(l1: Seq<char>, k1: Seq<char>, l2: Seq<char>, k2: Seq<char>) -> bool {
    lex_lt(l1, l2) || (l1 == l2 && lex_lt(k1, k2))
}

proof fn lemma_lex_total(a: Seq<char>, b: Seq<char>)
    ensures
        a != b ==> lex_lt(a, b) || lex_lt(b, a),
        !(lex_lt(a, b) && lex_lt(b, a)),
        !lex_lt(a, a),
    decreases a.len(),
{
    if a.len() > 0 {
        lemma_lex_total(a.drop_first(), a.drop_first());
    }
    if a.len() > 0 && b.len() > 0 {
        lemma_lex_total(a.drop_first(), b.drop_first());
        if a[0] == b[0] && a.drop_first() == b.drop_first() {
            assert(a =~= seq![a[0]] + a.drop_first());
            assert(b =~= seq![b[0]] + b.drop_first());
        }
    } else if a.len() == 0 && b.len() == 0 {
        assert(a =~= b);
    }
}

fn lex_less(a: &[char], b: &[char]) -> (r: bool)
    ensures
        r == lex_lt(a@, b@),
{
    let mut i: usize = 0;
    assert(a@.subrange(0, a@.len() as int) == a@);
    assert(b@.subrange(0, b@.len() as int) == b@);
    loop
        invariant
            i <= a@.len(),
            i <= b@.len(),
            lex_lt(a@, b@) == lex_lt(a@.subrange(i as int, a@.len() as int), b@.subrange(i as int, b@.len() as int)),
        decreases a@.len() - i,
    {
        let ghost ra = a@.subrange(i as int, a@.len() as int);
        let ghost rb = b@.subrange(i as int, b@.len() as int);
        if i == b.len() {
            return false;
        }
        if i == a.len() {
            return true;
        }
        if a[i] < b[i] {
            return true;
        }
        if a[i] > b[i] {
            return false;
        }
        assert(ra.drop_first() == a@.subrange(i + 1, a@.len() as int));
        assert(rb.drop_first() == b@.subrange(i + 1, b@.len() as int));
        i = i + 1;
    }
}

/// One commit's contribution to the contributor table: its resolved
/// author, merged into the record of the same key or added under its key.
pub open spec fn contrib_step(acc: Map<Seq<char>, AuthorView>, a: Option<AuthorView>) -> Map<Seq<char>, AuthorView> {
    match a {
        None => acc,
        Some(a) => match contributor_key_spec(a) {
            None => acc,
            Some(k) => if acc.dom().contains(k) {
                acc.insert(k, merge_spec(acc[k], a))
            } else {
                acc.insert(k, a)
            },
        },
    }
}

/// The contributor table of the first `n` commits, by key.
pub open spec fn contrib_map(commits: Seq<CommitEntry>, map: Map<Seq<char>, AuthorView>, n: nat) -> Map<Seq<char>, AuthorView>
    decreases n,
{
    if n == 0 {
        Map::empty()
    } else {
        contrib_step(contrib_map(commits, map, (n - 1) as nat), resolve_author_spec(commits[n - 1].email@, map))
    }
}

/// `r` lists the table `m` under the keys `ks`: every key once, sorted by
/// shown login and then key.
pub open spec fn lists_table(r: Seq<GithubAuthor>, ks: Seq<Seq<char>>, m: Map<Seq<char>, AuthorView>) -> bool {
    &&& r.len() == ks.len()
    &&& forall|i: int| 0 <= i < ks.len() ==> m.dom().contains(#[trigger] ks[i]) && m[ks[i]] == r[i]@
    &&& forall|k: Seq<char>| #[trigger] m.dom().contains(k) ==> exists|i: int| 0 <= i < ks.len() && ks[i] == k
    &&& forall|i: int, j: int| 0 <= i < j < ks.len() ==> ks[i] != ks[j]
    &&& forall|i: int| 0 <= i < ks.len() - 1 ==> contrib_lt(
        display_login_spec(#[trigger] r[i]@),
        ks[i],
        display_login_spec(r[i + 1]@),
        ks[i + 1],
    )
}

/// `v` lists the table `m`: each key once, with its entry.
spec fn table_matches(v: Seq<(Vec<char>, GithubAuthor)>, m: Map<Seq<char>, AuthorView>) -> bool {
    &&& forall|k: Seq<char>| #[trigger] m.dom().contains(k) <==> exists|j: int| 0 <= j < v.len() && v[j].0@ == k
    &&& forall|j: int| 0 <= j < v.len() ==> m[#[trigger] v[j].0@] == v[j].1@
    &&& forall|a: int, b: int| 0 <= a < b < v.len() ==> v[a].0@ != v[b].0@
}

proof fn lemma_table_set(
    old_v: Seq<(Vec<char>, GithubAuthor)>,
    v: Seq<(Vec<char>, GithubAuthor)>,
    idx: int,
    m: Map<Seq<char>, AuthorView>,
    key: Seq<char>,
    val: AuthorView,
)
    requires
        table_matches(old_v, m),
        0 <= idx < old_v.len(),
        old_v[idx].0@ == key,
        v.len() == old_v.len(),
        v[idx].0@ == key,
        v[idx].1@ == val,
        forall|t: int| 0 <= t < v.len() && t != idx ==> v[t] == old_v[t],
    ensures
        table_matches(v, m.insert(key, val)),
{
    let m2 = m.insert(key, val);
    assert forall|kk: Seq<char>| #[trigger] m2.dom().contains(kk) implies exists|t: int| 0 <= t < v.len() && v[t].0@ == kk by {
        if kk != key {
            assert(m.dom().contains(kk));
            let t = choose|t: int| 0 <= t < old_v.len() && old_v[t].0@ == kk;
            assert(v[t].0@ == kk);
        } else {
            assert(v[idx].0@ == kk);
        }
    }
    assert forall|kk: Seq<char>| (exists|t: int| 0 <= t < v.len() && v[t].0@ == kk) implies #[trigger] m2.dom().contains(kk) by {
        let t = choose|t: int| 0 <= t < v.len() && v[t].0@ == kk;
        if t != idx {
            assert(old_v[t].0@ == kk);
        }
    }
    assert forall|t: int| 0 <= t < v.len() implies m2[#[trigger] v[t].0@] == v[t].1@ by {
        if t != idx {
            assert(old_v[t] == v[t]);
            if t < idx {
                assert(old_v[t].0@ != old_v[idx].0@);
            } else {
                assert(old_v[idx].0@ != old_v[t].0@);
            }
        }
    }
    assert forall|a: int, b: int| 0 <= a < b < v.len() implies v[a].0@ != v[b].0@ by {
        if a != idx && b != idx {
            assert(v[a] == old_v[a] && v[b] == old_v[b]);
        } else if a == idx {
            assert(v[b] == old_v[b]);
        } else {
            assert(v[a] == old_v[a]);
        }
    }
}

proof fn lemma_table_push(
    old_v: Seq<(Vec<char>, GithubAuthor)>,
    v: Seq<(Vec<char>, GithubAuthor)>,
    m: Map<Seq<char>, AuthorView>,
    key: Seq<char>,
    val: AuthorView,
)
    requires
        table_matches(old_v, m),
        forall|t: int| 0 <= t < old_v.len() ==> old_v[t].0@ != key,
        v.len() == old_v.len() + 1,
        forall|t: int| 0 <= t < old_v.len() ==> v[t] == old_v[t],
        v[old_v.len() as int].0@ == key,
        v[old_v.len() as int].1@ == val,
    ensures
        table_matches(v, m.insert(key, val)),
        !m.dom().contains(key),
{
    let m2 = m.insert(key, val);
    assert(!m.dom().contains(key)) by {
        if m.dom().contains(key) {
            let t = choose|t: int| 0 <= t < old_v.len() && old_v[t].0@ == key;
            assert(old_v[t].0@ != key);
        }
    }
    assert forall|kk: Seq<char>| #[trigger] m2.dom().contains(kk) implies exists|t: int| 0 <= t < v.len() && v[t].0@ == kk by {
        if kk != key {
            assert(m.dom().contains(kk));
            let t = choose|t: int| 0 <= t < old_v.len() && old_v[t].0@ == kk;
            assert(v[t].0@ == kk);
        } else {
            assert(v[old_v.len() as int].0@ == kk);
        }
    }
    assert forall|kk: Seq<char>| (exists|t: int| 0 <= t < v.len() && v[t].0@ == kk) implies #[trigger] m2.dom().contains(kk) by {
        let t = choose|t: int| 0 <= t < v.len() && v[t].0@ == kk;
        if t < old_v.len() {
            assert(old_v[t].0@ == kk);
        }
    }
    assert forall|t: int| 0 <= t < v.len() implies m2[#[trigger] v[t].0@] == v[t].1@ by {
        if t < old_v.len() {
            assert(old_v[t] == v[t]);
        }
    }
    assert forall|a: int, b: int| 0 <= a < b < v.len() implies v[a].0@ != v[b].0@ by {
        assert(v[a] == old_v[a]);
        if b < old_v.len() {
            assert(v[b] == old_v[b]);
        }
    }
}

struct Keyed {
    key: Vec<char>,
    login: Vec<char>,
    author: GithubAuthor,
}

fn contrib_table(commits: &Vec<CommitEntry>, map: &AuthorMap) -> (r: Vec<(Vec<char>, GithubAuthor)>)
    ensures
        forall|k: Seq<char>| #[trigger] contrib_map(commits@, map@, commits@.len()).dom().contains(k) <==> exists|j: int| 0 <= j < r@.len() && r@[j].0@ == k,
        forall|j: int| 0 <= j < r@.len() ==> contrib_map(commits@, map@, commits@.len())[#[trigger] r@[j].0@] == r@[j].1@,
        forall|i: int, j: int| 0 <= i < j < r@.len() ==> r@[i].0@ != r@[j].0@,
{
    let mut v: Vec<(Vec<char>, GithubAuthor)> = Vec::new();
    let mut i: usize = 0;
    while i < commits.len()
        invariant
            i <= commits@.len(),
            table_matches(v@, contrib_map(commits@, map@, i as nat)),
        decreases commits@.len() - i,
    {
        let ghost m = contrib_map(commits@, map@, i as nat);
        let resolved = resolve_github_author(commits[i].email.as_str(), map);
        match resolved {
            None => {},
            Some(a) => {
                match contributor_key(&a) {
                    None => {},
                    Some(k) => {
                        let kc = chars_of(k.as_str());
                        let mut j: usize = 0;
                        let mut found = false;
                        while j < v.len() && !found
                            invariant
                                j <= v@.len(),
                                found ==> j > 0 && v@[j - 1].0@ == kc@,
                                !found ==> forall|t: int| 0 <= t < j ==> v@[t].0@ != kc@,
                            decreases v@.len() - j,
                        {
                            if crate::text::eq_chars(&v[j].0, &kc) {
                                found = true;
                            }
                            j = j + 1;
                        }
                        if found {
                            let idx = j - 1;
                            let merged = merge_authors(&v[idx].1, &a);
                            let key_copy = crate::text::slice_chars(&kc, 0, kc.len());
                            let ghost old_v = v@;
                            v.set(idx, (key_copy, merged));
                            proof {
                                assert(m.dom().contains(kc@));
                                assert(kc@.subrange(0, kc@.len() as int) =~= kc@);
                                lemma_table_set(old_v, v@, idx as int, m, kc@, merge_spec(m[kc@], a@));
                            }
                        } else {
                            let ghost old_v = v@;
                            v.push((kc, a));
                            proof {
                                lemma_table_push(old_v, v@, m, kc@, a@);
                            }
                        }
                    },
                }
            },
        }
        i = i + 1;
    }
    v
}

proof fn lemma_contrib_total(l1: Seq<char>, k1: Seq<char>, l2: Seq<char>, k2: Seq<char>)
    requires
        k1 != k2,
    ensures
        contrib_lt(l1, k1, l2, k2) || contrib_lt(l2, k2, l1, k1),
{
    lemma_lex_total(l1, l2);
    lemma_lex_total(k1, k2);
}

fn contrib_less(l1: &[char], k1: &[char], l2: &[char], k2: &[char]) -> (r: bool)
    ensures
        r == contrib_lt(l1@, k1@, l2@, k2@),
{
    lex_less(l1, l2) || (crate::text::eq_chars(l1, l2) && lex_less(k1, k2))
}

spec fn keyed_sorted(out: Seq<Keyed>) -> bool {
    forall|q: int| 0 <= q < out.len() - 1 ==> contrib_lt(
        (#[trigger] out[q]).login@,
        out[q].key@,
        out[q + 1].login@,
        out[q + 1].key@,
    )
}

#[verifier::opaque]
spec fn covers(out: Seq<Keyed>, v: Seq<(Vec<char>, GithubAuthor)>, i: int) -> bool {
    forall|t: int| 0 <= t < i ==> exists|m: int| 0 <= m < out.len() && out[m].key@ == (#[trigger] v[t]).0@ && out[m].author@ == v[t].1@
}

#[verifier::opaque]
spec fn sound(out: Seq<Keyed>, v: Seq<(Vec<char>, GithubAuthor)>, i: int) -> bool {
    forall|m: int| 0 <= m < out.len() ==> exists|t: int| 0 <= t < i && (#[trigger] out[m]).key@ == v[t].0@ && out[m].author@ == v[t].1@
}

#[verifier::opaque]
spec fn keys_distinct(out: Seq<Keyed>) -> bool {
    forall|m1: int, m2: int| 0 <= m1 < m2 < out.len() ==> out[m1].key@ != out[m2].key@
}

#[verifier::opaque]
spec fn logins_ok(out: Seq<Keyed>) -> bool {
    forall|m: int| 0 <= m < out.len() ==> (#[trigger] out[m]).login@ == display_login_spec(out[m].author@)
}

spec fn table_inv(out: Seq<Keyed>, v: Seq<(Vec<char>, GithubAuthor)>, i: int) -> bool {
    &&& out.len() == i
    &&& covers(out, v, i)
    &&& sound(out, v, i)
    &&& keys_distinct(out)
    &&& logins_ok(out)
    &&& keyed_sorted(out)
}

proof fn lemma_insert_sorted(old: Seq<Keyed>, x: Keyed, j: int)
    requires
        keyed_sorted(old),
        0 <= j <= old.len(),
        j > 0 ==> contrib_lt(old[j - 1].login@, old[j - 1].key@, x.login@, x.key@),
        j < old.len() ==> contrib_lt(x.login@, x.key@, old[j].login@, old[j].key@),
    ensures
        keyed_sorted(old.insert(j, x)),
{
    let n = old.insert(j, x);
    assert forall|q: int| 0 <= q < n.len() - 1 implies contrib_lt(
        (#[trigger] n[q]).login@,
        n[q].key@,
        n[q + 1].login@,
        n[q + 1].key@,
    ) by {
        if q < j - 1 {
            assert(n[q] == old[q] && n[q + 1] == old[q + 1]);
        } else if q == j - 1 {
            assert(n[q] == old[q] && n[q + 1] == x);
        } else if q == j {
            assert(n[q] == x && n[q + 1] == old[q]);
        } else {
            assert(n[q] == old[q - 1] && n[q + 1] == old[q]);
            assert(contrib_lt(old[q - 1].login@, old[q - 1].key@, old[q].login@, old[q].key@));
        }
    }
}

proof fn lemma_new_key(old: Seq<Keyed>, v: Seq<(Vec<char>, GithubAuthor)>, i: int, m: int)
    requires
        sound(old, v, i),
        0 <= i < v.len(),
        0 <= m < old.len(),
        forall|a: int, b: int| 0 <= a < b < v.len() ==> v[a].0@ != v[b].0@,
    ensures
        old[m].key@ != v[i].0@,
{
    reveal(sound);
    let t = choose|t: int| 0 <= t < i && (#[trigger] old[m]).key@ == v[t].0@ && old[m].author@ == v[t].1@;
}

proof fn lemma_insert_covers(old: Seq<Keyed>, x: Keyed, j: int, v: Seq<(Vec<char>, GithubAuthor)>, i: int)
    requires
        covers(old, v, i),
        0 <= i < v.len(),
        0 <= j <= old.len(),
        x.key@ == v[i].0@,
        x.author@ == v[i].1@,
    ensures
        covers(old.insert(j, x), v, i + 1),
{
    reveal(covers);
    let n = old.insert(j, x);
    assert forall|t: int| 0 <= t < i + 1 implies exists|m: int| 0 <= m < n.len() && n[m].key@ == (#[trigger] v[t]).0@ && n[m].author@ == v[t].1@ by {
        if t == i {
            assert(n[j] == x);
        } else {
            let m = choose|m: int| 0 <= m < old.len() && old[m].key@ == v[t].0@ && old[m].author@ == v[t].1@;
            if m < j {
                assert(n[m] == old[m]);
            } else {
                assert(n[m + 1] == old[m]);
            }
        }
    }
}

proof fn lemma_insert_sound(old: Seq<Keyed>, x: Keyed, j: int, v: Seq<(Vec<char>, GithubAuthor)>, i: int)
    requires
        sound(old, v, i),
        0 <= i < v.len(),
        0 <= j <= old.len(),
        x.key@ == v[i].0@,
        x.author@ == v[i].1@,
    ensures
        sound(old.insert(j, x), v, i + 1),
{
    reveal(sound);
    let n = old.insert(j, x);
    assert forall|m: int| 0 <= m < n.len() implies exists|t: int| 0 <= t < i + 1 && (#[trigger] n[m]).key@ == v[t].0@ && n[m].author@ == v[t].1@ by {
        if m < j {
            assert(n[m] == old[m]);
        } else if m == j {
            assert(n[m] == x);
        } else {
            assert(n[m] == old[m - 1]);
        }
    }
}

proof fn lemma_insert_distinct(old: Seq<Keyed>, x: Keyed, j: int)
    requires
        keys_distinct(old),
        0 <= j <= old.len(),
        forall|m: int| 0 <= m < old.len() ==> (#[trigger] old[m]).key@ != x.key@,
    ensures
        keys_distinct(old.insert(j, x)),
{
    reveal(keys_distinct);
    let n = old.insert(j, x);
    assert forall|m1: int, m2: int| 0 <= m1 < m2 < n.len() implies n[m1].key@ != n[m2].key@ by {
        if m1 < j {
            assert(n[m1] == old[m1]);
        } else if m1 > j {
            assert(n[m1] == old[m1 - 1]);
        }
        if m2 < j {
            assert(n[m2] == old[m2]);
        } else if m2 > j {
            assert(n[m2] == old[m2 - 1]);
        }
    }
}

proof fn lemma_insert_logins(old: Seq<Keyed>, x: Keyed, j: int)
    requires
        logins_ok(old),
        0 <= j <= old.len(),
        x.login@ == display_login_spec(x.author@),
    ensures
        logins_ok(old.insert(j, x)),
{
    reveal(logins_ok);
    let n = old.insert(j, x);
    assert forall|m: int| 0 <= m < n.len() implies (#[trigger] n[m]).login@ == display_login_spec(n[m].author@) by {
        if m < j {
            assert(n[m] == old[m]);
        } else if m > j {
            assert(n[m] == old[m - 1]);
        }
    }
}

fn sort_table(v: Vec<(Vec<char>, GithubAuthor)>) -> (out: Vec<Keyed>)
    requires
        forall|a: int, b: int| 0 <= a < b < v@.len() ==> v@[a].0@ != v@[b].0@,
    ensures
        table_inv(out@, v@, v@.len() as int),
{
    let mut out: Vec<Keyed> = Vec::new();
    let mut i: usize = 0;
    proof {
        reveal(covers);
        reveal(sound);
        reveal(keys_distinct);
        reveal(logins_ok);
    }
    while i < v.len()
        invariant
            i <= v@.len(),
            forall|a: int, b: int| 0 <= a < b < v@.len() ==> v@[a].0@ != v@[b].0@,
            table_inv(out@, v@, i as int),
        decreases v@.len() - i,
    {
        let key = crate::text::copy_chars(&v[i].0);
        let author = v[i].1.copy();
        let login = chars_of(display_login(&author).as_str());
        let mut j: usize = 0;
        while j < out.len() && !contrib_less(&login, &key, &out[j].login, &out[j].key)
            invariant
                j <= out@.len(),
                forall|t: int| 0 <= t < j ==> !contrib_lt(login@, key@, (#[trigger] out@[t]).login@, out@[t].key@),
            decreases out@.len() - j,
        {
            j = j + 1;
        }
        let ghost old_out = out@;
        proof {
            assert forall|m: int| 0 <= m < old_out.len() implies (#[trigger] old_out[m]).key@ != key@ by {
                lemma_new_key(old_out, v@, i as int, m);
            }
            if j > 0 {
                lemma_contrib_total(old_out[j - 1].login@, old_out[j - 1].key@, login@, key@);
            }
        }
        let item = Keyed { key, login, author };
        let ghost x = item;
        out.insert(j, item);
        proof {
            lemma_insert_sorted(old_out, x, j as int);
            lemma_insert_covers(old_out, x, j as int, v@, i as int);
            lemma_insert_sound(old_out, x, j as int, v@, i as int);
            lemma_insert_distinct(old_out, x, j as int);
            lemma_insert_logins(old_out, x, j as int);
        }
        i = i + 1;
    }
    out
}

proof fn lemma_table_lists(sorted: Seq<Keyed>, table: Seq<(Vec<char>, GithubAuthor)>, m: Map<Seq<char>, AuthorView>, r: Seq<GithubAuthor>)
    requires
        table_inv(sorted, table, table.len() as int),
        forall|k: Seq<char>| #[trigger] m.dom().contains(k) <==> exists|j: int| 0 <= j < table.len() && table[j].0@ == k,
        forall|j: int| 0 <= j < table.len() ==> m[#[trigger] table[j].0@] == table[j].1@,
        r.len() == sorted.len(),
        forall|t: int| 0 <= t < sorted.len() ==> (#[trigger] r[t])@ == sorted[t].author@,
    ensures
        exists|ks: Seq<Seq<char>>| lists_table(r, ks, m),
{
    reveal(covers);
    reveal(sound);
    reveal(keys_distinct);
    reveal(logins_ok);
    let ks = sorted.map_values(|k: Keyed| k.key@);
    assert forall|t: int| 0 <= t < ks.len() implies m.dom().contains(#[trigger] ks[t]) && m[ks[t]] == r[t]@ by {
        let tt = choose|tt: int| 0 <= tt < table.len() && (#[trigger] sorted[t]).key@ == table[tt].0@ && sorted[t].author@ == table[tt].1@;
        assert(m.dom().contains(table[tt].0@));
    }
    assert forall|k: Seq<char>| #[trigger] m.dom().contains(k) implies exists|t: int| 0 <= t < ks.len() && ks[t] == k by {
        let tt = choose|tt: int| 0 <= tt < table.len() && table[tt].0@ == k;
        let mm = choose|mm: int| 0 <= mm < sorted.len() && sorted[mm].key@ == (#[trigger] table[tt]).0@ && sorted[mm].author@ == table[tt].1@;
        assert(ks[mm] == k);
    }
    assert forall|t: int| 0 <= t < ks.len() - 1 implies contrib_lt(
        display_login_spec(#[trigger] r[t]@),
        ks[t],
        display_login_spec(r[t + 1]@),
        ks[t + 1],
    ) by {
        assert(sorted[t].login@ == display_login_spec(sorted[t].author@));
        assert(sorted[t + 1].login@ == display_login_spec(sorted[t + 1].author@));
        assert(contrib_lt(sorted[t].login@, sorted[t].key@, sorted[t + 1].login@, sorted[t + 1].key@));
    }
    assert(lists_table(r, ks, m));
}

/// The GitHub contributors of `commits`: each commit's author resolved
/// from its e-mail, one record per key (records of one key merged), sorted
/// by shown login and then by key.
pub fn collect_contributors_from_commits(commits: &Vec<CommitEntry>, map: &AuthorMap) -> (r: Vec<GithubAuthor>)
    ensures
        exists|ks: Seq<Seq<char>>| lists_table(r@, ks, contrib_map(commits@, map@, commits@.len())),
{
    let table = contrib_table(commits, map);
    let sorted = sort_table(table);
    let ghost m = contrib_map(commits@, map@, commits@.len());
    let mut r: Vec<GithubAuthor> = Vec::new();
    let mut i: usize = 0;
    while i < sorted.len()
        invariant
            i <= sorted@.len(),
            r@.len() == i,
            forall|t: int| 0 <= t < i ==> (#[trigger] r@[t])@ == sorted@[t].author@,
        decreases sorted@.len() - i,
    {
        r.push(sorted[i].author.copy());
        i = i + 1;
    }
    proof {
        lemma_table_lists(sorted@, table@, m, r@);
    }
    r
}

/// What the wall says when no contributor is known.
pub open spec fn no_contributors_text() -> Seq<char> {
    "(none \u{2014} no GitHub login from commit email; add `documentation/maintenance/author-github.json` if needed)"@
}

/// What the wall says for many contributors of which none has a login.
pub open spec fn ids_only_text() -> Seq<char> {
    "(none \u{2014} contributors have numeric ids only; use the table layout below 12 people or add `login` to author-github.json)"@
}

/// The logins among `cs`, in order.
pub open spec fn logins_of(cs: Seq<GithubAuthor>) -> Seq<Seq<char>>
    decreases cs.len(),
{
    if cs.len() == 0 {
        Seq::empty()
    } else {
        match cs.last().login {
            Some(l) => logins_of(cs.drop_last()).push(l@),
            None => logins_of(cs.drop_last()),
        }
    }
}

/// One cell of the avatar table.
pub open spec fn cell_spec(a: AuthorView) -> Seq<char> {
    let login = display_login_spec(a);
    "<td align=\"center\"><a href=\""@ + profile_url_spec(a) + "\"><img src=\""@ + avatar_url_spec(a)
        + "\" width=\"64\" height=\"64\" alt=\"@"@ + login + "\"/><br /><sub><b>"@ + login
        + "</b></sub></a></td>"@
}

/// One row of the avatar table.
pub open spec fn row_spec(chunk: Seq<GithubAuthor>) -> Seq<char> {
    "<tr>\n"@ + join_seq(chunk.map_values(|c: GithubAuthor| cell_spec(c@)), seq!['\n']) + "\n</tr>"@
}

/// The rows of the table for `k` columns.
pub open spec fn rows_spec(cs: Seq<GithubAuthor>, k: nat) -> Seq<Seq<char>>
    decreases cs.len(),
{
    if cs.len() == 0 || k == 0 {
        Seq::empty()
    } else if cs.len() <= k {
        seq![row_spec(cs)]
    } else {
        seq![row_spec(cs.take(k as int))] + rows_spec(cs.skip(k as int), k)
    }
}

/// The contributor wall: a note when empty; a contrib.rocks image of the
/// logins for more than twelve; else an avatar table of up to six columns.
pub open spec fn wall_spec(cs: Seq<GithubAuthor>, repo: Seq<char>) -> Seq<char> {
    if cs.len() == 0 {
        no_contributors_text()
    } else if cs.len() > 12 {
        let users = logins_of(cs);
        if users.len() == 0 {
            ids_only_text()
        } else {
            "<a href=\"https://github.com/"@ + repo
                + "/graphs/contributors\">\n  <img src=\"https://contrib.rocks/image?users="@ + join_seq(users, seq![','])
                + "&columns=9\" alt=\"Contributors\" />\n</a>"@
        }
    } else {
        let columns: nat = if cs.len() < 6 { cs.len() } else { 6 };
        "<table>\n<tbody>\n"@ + join_seq(rows_spec(cs, columns), seq!['\n']) + "\n</tbody>\n</table>"@
    }
}

fn join_with(parts: &Vec<Vec<char>>, sep: char) -> (r: Vec<char>)
    ensures
        r@ == join_seq(views(parts@), seq![sep]),
{
    let mut out: Vec<char> = Vec::new();
    let mut i: usize = 0;
    assert(views(parts@).subrange(0, 0) =~= Seq::<Seq<char>>::empty());
    while i < parts.len()
        invariant
            i <= parts@.len(),
            out@ == join_seq(views(parts@).subrange(0, i as int), seq![sep]),
        decreases parts@.len() - i,
    {
        let ghost before = views(parts@).subrange(0, i as int);
        let ghost after = views(parts@).subrange(0, i + 1);
        assert(after.drop_last() == before);
        assert(after.last() == parts@[i as int]@);
        if i > 0 {
            out.push(sep);
        }
        append(&mut out, &parts[i]);
        i = i + 1;
    }
    assert(views(parts@).subrange(0, parts@.len() as int) == views(parts@));
    out
}

fn cell(a: &GithubAuthor) -> (r: Vec<char>)
    ensures
        r@ == cell_spec(a@),
{
    let login = chars_of(display_login(a).as_str());
    let mut v = lit("<td align=\"center\"><a href=\"");
    append(&mut v, &chars_of(profile_url(a).as_str()));
    append(&mut v, &lit("\"><img src=\""));
    append(&mut v, &chars_of(avatar_url(a).as_str()));
    append(&mut v, &lit("\" width=\"64\" height=\"64\" alt=\"@"));
    append(&mut v, &login);
    append(&mut v, &lit("\"/><br /><sub><b>"));
    append(&mut v, &login);
    append(&mut v, &lit("</b></sub></a></td>"));
    v
}

fn row(cs: &Vec<GithubAuthor>, from: usize, to: usize) -> (r: Vec<char>)
    requires
        from <= to <= cs@.len(),
    ensures
        r@ == row_spec(cs@.subrange(from as int, to as int)),
{
    let mut cells: Vec<Vec<char>> = Vec::new();
    let mut i = from;
    let ghost chunk = cs@.subrange(from as int, to as int);
    while i < to
        invariant
            from <= i <= to <= cs@.len(),
            chunk == cs@.subrange(from as int, to as int),
            views(cells@) == chunk.map_values(|c: GithubAuthor| cell_spec(c@)).subrange(0, i - from),
        decreases to - i,
    {
        let ghost prev = views(cells@);
        cells.push(cell(&cs[i]));
        assert(views(cells@) == prev.push(cell_spec(cs@[i as int]@)));
        assert(chunk.map_values(|c: GithubAuthor| cell_spec(c@)).subrange(0, i + 1 - from) == chunk.map_values(|c: GithubAuthor| cell_spec(c@)).subrange(0, i - from).push(cell_spec(chunk[i - from]@)));
        i = i + 1;
    }
    assert(chunk.map_values(|c: GithubAuthor| cell_spec(c@)).subrange(0, to - from) == chunk.map_values(|c: GithubAuthor| cell_spec(c@)));
    let mut v = lit("<tr>\n");
    append(&mut v, &join_with(&cells, '\n'));
    append(&mut v, &lit("\n</tr>"));
    v
}

proof fn lemma_rows_step(cs: Seq<GithubAuthor>, k: nat, from: int)
    requires
        k > 0,
        0 <= from < cs.len(),
    ensures
        rows_spec(cs.subrange(from, cs.len() as int), k) == if cs.len() - from <= k {
            seq![row_spec(cs.subrange(from, cs.len() as int))]
        } else {
            seq![row_spec(cs.subrange(from, from + k))] + rows_spec(cs.subrange(from + k, cs.len() as int), k)
        },
{
    let rest = cs.subrange(from, cs.len() as int);
    if cs.len() - from > k {
        assert(rest.take(k as int) == cs.subrange(from, from + k));
        assert(rest.skip(k as int) == cs.subrange(from + k, cs.len() as int));
    }
}

/// Renders the contributor wall HTML.
pub fn render_contributor_wall(contributors: &Vec<GithubAuthor>, default_repo: &str) -> (r: String)
    ensures
        r@ == wall_spec(contributors@, default_repo@),
{
    let n = contributors.len();
    if n == 0 {
        return string_of(&lit("(none \u{2014} no GitHub login from commit email; add `documentation/maintenance/author-github.json` if needed)"));
    }
    if n > 12 {
        let mut users: Vec<Vec<char>> = Vec::new();
        let mut i: usize = 0;
        while i < n
            invariant
                n == contributors@.len(),
                i <= n,
                views(users@) == logins_of(contributors@.subrange(0, i as int)),
            decreases n - i,
        {
            let ghost prev = views(users@);
            assert(contributors@.subrange(0, i + 1).drop_last() == contributors@.subrange(0, i as int));
            match &contributors[i].login {
                Some(l) => {
                    users.push(chars_of(l.as_str()));
                    assert(views(users@) == prev.push(l@));
                },
                None => {},
            }
            i = i + 1;
        }
        assert(contributors@.subrange(0, n as int) == contributors@);
        if users.len() == 0 {
            return string_of(&lit("(none \u{2014} contributors have numeric ids only; use the table layout below 12 people or add `login` to author-github.json)"));
        }
        let mut v = lit("<a href=\"https://github.com/");
        append(&mut v, &chars_of(default_repo));
        append(&mut v, &lit("/graphs/contributors\">\n  <img src=\"https://contrib.rocks/image?users="));
        append(&mut v, &join_with(&users, ','));
        append(&mut v, &lit("&columns=9\" alt=\"Contributors\" />\n</a>"));
        return string_of(&v);
    }
    let columns: usize = if n < 6 { n } else { 6 };
    let mut rows: Vec<Vec<char>> = Vec::new();
    let mut from: usize = 0;
    let ghost all_rows = rows_spec(contributors@, columns as nat);
    assert(contributors@.subrange(0, n as int) == contributors@);
    while from < n
        invariant
            n == contributors@.len(),
            0 < columns <= 6,
            from <= n,
            all_rows == views(rows@) + rows_spec(contributors@.subrange(from as int, n as int), columns as nat),
        decreases n - from,
    {
        proof {
            lemma_rows_step(contributors@, columns as nat, from as int);
        }
        let to = if n - from <= columns { n } else { from + columns };
        let ghost prev = views(rows@);
        rows.push(row(contributors, from, to));
        assert(views(rows@) == prev.push(row_spec(contributors@.subrange(from as int, to as int))));
        from = to;
    }
    assert(contributors@.subrange(n as int, n as int).len() == 0);
    assert(views(rows@) == all_rows);
    let mut v = lit("<table>\n<tbody>\n");
    append(&mut v, &join_with(&rows, '\n'));
    append(&mut v, &lit("\n</tbody>\n</table>"));
    string_of(&v)
}

} // verus!
