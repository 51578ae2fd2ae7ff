//! GitHub authors of commits: noreply addresses, the e-mail map, and the
//! strings shown for a contributor.

use vstd::prelude::*;

use crate::json::{as_str_spec, as_u64, as_u64_spec, member, member_spec, JsonNumber, JsonValue};
use crate::text::{chars_of, decimal, decimal_seq, parse_uint_seq, string_of, trim, trim_seq};
use crate::wrappers::{lowercase_spec, opt_views, regex_captures, regex_compiles, to_lowercase};

verus! {

/// A GitHub user; the numeric id is preferred for stable avatar URLs.
#[derive(Debug, PartialEq, Eq)]
pub struct GithubAuthor {
    /// GitHub numeric user id.
    pub id: Option<u64>,
    /// GitHub login handle.
    pub login: Option<String>,
}

/// A GitHub user as values.
pub type AuthorView = (Option<u64>, Option<Seq<char>>);

pub open spec fn opt_str_view(o: Option<String>) -> Option<Seq<char>> {
    match o {
        Some(s) => Some(s@),
        None => None,
    }
}

impl View for GithubAuthor {
    type V = AuthorView;

    open spec fn view(&self) -> AuthorView {
        (self.id, opt_str_view(self.login))
    }
}

fn copy_opt_string(o: &Option<String>) -> (r: Option<String>)
    ensures
        opt_str_view(r) == opt_str_view(*o),
{
    match o {
        Some(s) => Some(string_of(&chars_of(s.as_str()))),
        None => None,
    }
}

impl GithubAuthor {
    /// A copy of this author.
    pub fn copy(&self) -> (r: GithubAuthor)
        ensures
            r@ == self@,
    {
        GithubAuthor { id: self.id, login: copy_opt_string(&self.login) }
    }
}

/// Map from lower-cased e-mail to GitHub author; a later insert for the
/// same e-mail replaces the earlier one.
pub struct AuthorMap {
    entries: Vec<(String, GithubAuthor)>,
}

/// The map that a list of inserts builds.
pub open spec fn map_of(entries: Seq<(String, GithubAuthor)>) -> Map<Seq<char>, AuthorView>
    decreases entries.len(),
{
    if entries.len() == 0 {
        Map::empty()
    } else {
        map_of(entries.drop_last()).insert(entries.last().0@, entries.last().1@)
    }
}

impl View for AuthorMap {
    type V = Map<Seq<char>, AuthorView>;

    closed spec fn view(&self) -> Map<Seq<char>, AuthorView> {
        map_of(self.entries@)
    }
}

proof fn lemma_map_of_lookup(entries: Seq<(String, GithubAuthor)>, k: Seq<char>, i: int)
    requires
        0 <= i <= entries.len(),
        forall|j: int| i <= j < entries.len() ==> (#[trigger] entries[j]).0@ != k,
    ensures
        map_of(entries).dom().contains(k) == map_of(entries.subrange(0, i)).dom().contains(k),
        map_of(entries)[k] == map_of(entries.subrange(0, i))[k],
    decreases entries.len() - i,
{
    if i < entries.len() {
        lemma_map_of_lookup(entries.drop_last(), k, i);
        assert(entries.drop_last().subrange(0, i) == entries.subrange(0, i));
    } else {
        assert(entries.subrange(0, i) == entries);
    }
}

impl AuthorMap {
    /// An empty map.
    pub fn new() -> (r: AuthorMap)
        ensures
            r@ == Map::<Seq<char>, AuthorView>::empty(),
    {
        AuthorMap { entries: Vec::new() }
    }

    /// Maps `email` to `author`, replacing what it mapped to.
    pub fn insert(&mut self, email: String, author: GithubAuthor)
        ensures
            final(self)@ == old(self)@.insert(email@, author@),
    {
        let ghost prev = self.entries@;
        self.entries.push((email, author));
        assert(self.entries@.drop_last() == prev);
    }

    /// The author mapped to `email`.
    pub fn get(&self, email: &str) -> (r: Option<GithubAuthor>)
        ensures
            match r {
                Some(a) => self@.dom().contains(email@) && self@[email@] == a@,
                None => !self@.dom().contains(email@),
            },
    {
        let key = chars_of(email);
        let mut i: usize = self.entries.len();
        while i > 0
            invariant
                i <= self.entries@.len(),
                key@ == email@,
                forall|j: int| i <= j < self.entries@.len() ==> (#[trigger] self.entries@[j]).0@ != email@,
            decreases i,
        {
            let name = chars_of(self.entries[i - 1].0.as_str());
            if crate::text::eq_chars(&name, &key) {
                proof {
                    lemma_map_of_lookup(self.entries@, email@, i as int);
                    let pre = self.entries@.subrange(0, i as int);
                    assert(pre.drop_last() == self.entries@.subrange(0, i - 1));
                }
                return Some(self.entries[i - 1].1.copy());
            }
            i = i - 1;
        }
        proof {
            lemma_map_of_lookup(self.entries@, email@, 0);
            assert(self.entries@.subrange(0, 0) == Seq::<(String, GithubAuthor)>::empty());
        }
        None
    }
}

/// The login of a JSON map entry: the trimmed string, when not empty.
pub open spec fn trimmed_login(v: Option<JsonValue>) -> Option<Seq<char>> {
    match v {
        Some(JsonValue::Str(s)) => if trim_seq(s@).len() > 0 {
            Some(trim_seq(s@))
        } else {
            None
        },
        _ => None,
    }
}

pub open spec fn key_login() -> Seq<char> {
    seq!['l', 'o', 'g', 'i', 'n']
}

pub open spec fn key_id() -> Seq<char> {
    seq!['i', 'd']
}

/// What one entry of the e-mail map gives: a login string, a numeric id,
/// or an object with `id` and/or `login`.
pub open spec fn author_entry_spec(v: JsonValue) -> Option<AuthorView> {
    match v {
        JsonValue::Str(s) => if trim_seq(s@).len() == 0 {
            None
        } else {
            Some((None, Some(trim_seq(s@))))
        },
        JsonValue::Number(JsonNumber::PosInt(n)) => Some((Some(n), None)),
        JsonValue::Object(m) => {
            let login = trimmed_login(member_spec(m@, key_login()));
            let id = match member_spec(m@, key_id()) {
                Some(x) => as_u64_spec(x),
                None => None,
            };
            if login is Some || id is Some {
                Some((id, login))
            } else {
                None
            }
        },
        _ => None,
    }
}

/// Reads one entry of the e-mail map (a login string, a numeric id, or an
/// `{ id, login }` object).
pub fn parse_author_entry(value: &JsonValue) -> (r: Option<GithubAuthor>)
    ensures
        match r {
            Some(a) => author_entry_spec(*value) == Some(a@),
            None => author_entry_spec(*value) is None,
        },
{
    match value {
        JsonValue::Str(s) => {
            let t = trim(&chars_of(s.as_str()));
            if t.len() == 0 {
                None
            } else {
                Some(GithubAuthor { id: None, login: Some(string_of(&t)) })
            }
        },
        JsonValue::Number(JsonNumber::PosInt(n)) => Some(GithubAuthor { id: Some(*n), login: None }),
        JsonValue::Object(m) => {
            let lk = "login";
            let ik = "id";
            proof {
                reveal_strlit("login");
                reveal_strlit("id");
            }
            assert(lk@ == key_login());
            assert(ik@ == key_id());
            let login: Option<String> = match member(m, lk) {
                Some(JsonValue::Str(s)) => {
                    let t = trim(&chars_of(s.as_str()));
                    if t.len() > 0 {
                        Some(string_of(&t))
                    } else {
                        None
                    }
                },
                _ => None,
            };
            let id = match member(m, ik) {
                Some(x) => as_u64(x),
                None => None,
            };
            if login.is_some() || id.is_some() {
                Some(GithubAuthor { id, login })
            } else {
                None
            }
        },
        _ => None,
    }
}

/// The map that `load_author_map` builds from a parsed JSON document: each
/// member whose entry reads as an author, keyed by its lower-cased,
/// trimmed e-mail, later members replacing earlier ones.
pub open spec fn author_map_upto(members: Seq<(String, JsonValue)>, n: nat) -> Map<Seq<char>, AuthorView>
    decreases n,
{
    if n == 0 {
        Map::empty()
    } else {
        let prev = author_map_upto(members, (n - 1) as nat);
        match author_entry_spec(members[n - 1].1) {
            Some(a) => prev.insert(lowercase_spec(trim_seq(members[n - 1].0@)), a),
            None => prev,
        }
    }
}

pub open spec fn author_map_spec(doc: JsonValue) -> Map<Seq<char>, AuthorView> {
    match doc {
        JsonValue::Object(m) => author_map_upto(m@, m@.len()),
        _ => Map::empty(),
    }
}

/// Builds the e-mail map from a parsed `author-github.json`; a document
/// that is not an object gives the empty map.
pub fn author_map_from_json(doc: &JsonValue) -> (r: AuthorMap)
    ensures
        r@ == author_map_spec(*doc),
{
    let mut out = AuthorMap::new();
    match doc {
        JsonValue::Object(m) => {
            let mut i: usize = 0;
            while i < m.len()
                invariant
                    i <= m@.len(),
                    out@ == author_map_upto(m@, i as nat),
                decreases m@.len() - i,
            {
                match parse_author_entry(&m[i].1) {
                    Some(a) => {
                        let key = string_of(&trim(&chars_of(m[i].0.as_str())));
                        let lower = to_lowercase(key.as_str());
                        out.insert(lower, a);
                    },
                    None => {},
                }
                i = i + 1;
            }
        },
        _ => {},
    }
    out
}

/// Pattern of a noreply address with a numeric id.
pub open spec fn noreply_with_id_pattern() -> Seq<char> {
    "(?i)^(\\d+)\\+([^@+]+)@users\\.noreply\\.github\\.com$"@
}

/// Pattern of a noreply address with a login only.
pub open spec fn noreply_login_pattern() -> Seq<char> {
    "(?i)^([^@+]+)@users\\.noreply\\.github\\.com$"@
}

/// Group `i` of a capture, when it took part in the match.
pub open spec fn group(caps: Seq<Option<Seq<char>>>, i: int) -> Option<Seq<char>> {
    if 0 <= i < caps.len() {
        caps[i]
    } else {
        None
    }
}

/// The author a GitHub noreply address names: `<id>+<login>@users.noreply.github.com`
/// gives both (none at all when the id does not fit a `u64`),
/// `<login>@users.noreply.github.com` gives the login.
pub open spec fn noreply_spec(email: Seq<char>) -> Option<AuthorView> {
    let with_id = if regex_compiles(noreply_with_id_pattern()) {
        regex_captures(noreply_with_id_pattern(), email)
    } else {
        None
    };
    let login_only = if regex_compiles(noreply_login_pattern()) {
        regex_captures(noreply_login_pattern(), email)
    } else {
        None
    };
    match with_id {
        Some(caps) => match (group(caps, 1), group(caps, 2)) {
            (Some(d), Some(l)) => match parse_uint_seq(d, u64::MAX as nat) {
                Some(id) => Some((Some(id as u64), Some(l))),
                None => None,
            },
            _ => None,
        },
        None => match login_only {
            Some(caps) => match group(caps, 1) {
                Some(l) => Some((None, Some(l))),
                None => None,
            },
            None => None,
        },
    }
}

fn group_exec(caps: &Vec<Option<String>>, i: usize) -> (r: Option<Vec<char>>)
    ensures
        match r {
            Some(c) => group(opt_views(caps@), i as int) == Some(c@),
            None => group(opt_views(caps@), i as int) is None,
        },
{
    if i < caps.len() {
        match &caps[i] {
            Some(s) => Some(chars_of(s.as_str())),
            None => None,
        }
    } else {
        None
    }
}

proof fn lemma_digits_prefix_le(s: Seq<char>, p: int)
    requires
        0 <= p <= s.len(),
        forall|j: int| 0 <= j < s.len() ==> crate::text::is_digit(#[trigger] s[j]),
    ensures
        crate::text::digits_value(s.subrange(0, p)) <= crate::text::digits_value(s),
    decreases s.len() - p,
{
    if p < s.len() {
        lemma_digits_prefix_le(s.drop_last(), p);
        assert(s.drop_last().subrange(0, p) == s.subrange(0, p));
        assert(crate::text::digits_value(s.drop_last()) <= crate::text::digits_value(s));
    } else {
        assert(s.subrange(0, p) == s);
    }
}

/// `u64::from_str` / `u32::from_str` with the bound `max`.
pub fn parse_uint(s: &[char], max: u64) -> (r: Option<u64>)
    ensures
        match r {
            Some(n) => parse_uint_seq(s@, max as nat) == Some(n as nat),
            None => parse_uint_seq(s@, max as nat) is None,
        },
{
    let start: usize = if s.len() > 0 && s[0] == '+' { 1 } else { 0 };
    let ghost body = crate::text::uint_body(s@);
    assert(body == s@.subrange(start as int, s@.len() as int));
    if start >= s.len() {
        return None;
    }
    let mut value: u64 = 0;
    let mut i = start;
    while i < s.len()
        invariant
            start <= i <= s@.len(),
            body == crate::text::uint_body(s@),
            body == s@.subrange(start as int, s@.len() as int),
            forall|j: int| start <= j < i ==> crate::text::is_digit(#[trigger] s@[j]),
            value as nat == crate::text::digits_value(s@.subrange(start as int, i as int)),
            value <= max,
        decreases s@.len() - i,
    {
        let c = s[i];
        if !('0' <= c && c <= '9') {
            assert(body[i - start] == s@[i as int]);
            assert(!crate::text::is_digit(body[i - start]));
            assert(!crate::text::all_digits(body));
            assert(parse_uint_seq(s@, max as nat) is None);
            return None;
        }
        let d = (c as u32 - '0' as u32) as u64;
        assert(s@.subrange(start as int, i + 1).drop_last() == s@.subrange(start as int, i as int));
        if d > max || value > (max - d) / 10 {
            proof {
                let pre = s@.subrange(start as int, i + 1);
                assert(pre.drop_last() == s@.subrange(start as int, i as int));
                assert(crate::text::digits_value(pre) == value * 10 + d);
                assert(value * 10 + d > max) by (nonlinear_arith)
                    requires
                        d > max || value > (max - d) / 10,
                        d <= 9,
                        max >= 0,
                ;
                if crate::text::all_digits(body) {
                    lemma_digits_prefix_le(body, i - start + 1);
                    assert(body.subrange(0, i - start + 1) == pre);
                }
            }
            return None;
        }
        value = value * 10 + d;
        i = i + 1;
    }
    assert(s@.subrange(start as int, i as int) == body);
    Some(value)
}

/// Reads a GitHub noreply address (`12345+login@users.noreply.github.com`
/// or `login@users.noreply.github.com`, case-insensitive).
pub fn github_from_noreply_email(email: &str) -> (r: Option<GithubAuthor>)
    ensures
        match r {
            Some(a) => noreply_spec(email@) == Some(a@),
            None => noreply_spec(email@) is None,
        },
{
    let with_id_re = crate::wrappers::regex_new("(?i)^(\\d+)\\+([^@+]+)@users\\.noreply\\.github\\.com$");
    let login_re = crate::wrappers::regex_new("(?i)^([^@+]+)@users\\.noreply\\.github\\.com$");
    let with_id = match &with_id_re {
        Some(re) => crate::wrappers::regex_captures_of(re, email),
        None => None,
    };
    match with_id {
        Some(caps) => {
            match (group_exec(&caps, 1), group_exec(&caps, 2)) {
                (Some(d), Some(l)) => match parse_uint(&d, 18446744073709551615u64) {
                    Some(id) => Some(GithubAuthor { id: Some(id), login: Some(string_of(&l)) }),
                    None => None,
                },
                _ => None,
            }
        },
        None => {
            let login_only = match &login_re {
                Some(re) => crate::wrappers::regex_captures_of(re, email),
                None => None,
            };
            match login_only {
                Some(caps) => match group_exec(&caps, 1) {
                    Some(l) => Some(GithubAuthor { id: None, login: Some(string_of(&l)) }),
                    None => None,
                },
                None => None,
            }
        },
    }
}

/// The author of a commit e-mail: the noreply reading first, else the
/// map entry for the trimmed, lower-cased e-mail.
pub open spec fn resolve_author_spec(email: Seq<char>, map: Map<Seq<char>, AuthorView>) -> Option<AuthorView> {
    match noreply_spec(email) {
        Some(a) => Some(a),
        None => {
            let key = lowercase_spec(trim_seq(email));
            if map.dom().contains(key) {
                Some(map[key])
            } else {
                None
            }
        },
    }
}

/// Resolves the GitHub author of a commit e-mail.
pub fn resolve_github_author(email: &str, map: &AuthorMap) -> (r: Option<GithubAuthor>)
    ensures
        match r {
            Some(a) => resolve_author_spec(email@, map@) == Some(a@),
            None => resolve_author_spec(email@, map@) is None,
        },
{
    match github_from_noreply_email(email) {
        Some(a) => Some(a),
        None => {
            let key = string_of(&trim(&chars_of(email)));
            let lower = to_lowercase(key.as_str());
            map.get(lower.as_str())
        },
    }
}

/// Key under which a contributor is counted once.
pub open spec fn contributor_key_spec(a: AuthorView) -> Option<Seq<char>> {
    match a.0 {
        Some(id) => Some("id:"@ + decimal_seq(id as nat)),
        None => match a.1 {
            Some(l) => Some("login:"@ + l),
            None => None,
        },
    }
}

/// Shown login: the login, else `user-<id>`, else `unknown`.
pub open spec fn display_login_spec(a: AuthorView) -> Seq<char> {
    match a.1 {
        Some(l) => l,
        None => match a.0 {
            Some(id) => "user-"@ + decimal_seq(id as nat),
            None => "unknown"@,
        },
    }
}

/// Profile URL: by login, else by id, else `#`.
pub open spec fn profile_url_spec(a: AuthorView) -> Seq<char> {
    match a.1 {
        Some(l) => "https://github.com/"@ + l,
        None => match a.0 {
            Some(id) => "https://github.com/user/"@ + decimal_seq(id as nat),
            None => "#"@,
        },
    }
}

/// Avatar URL: by id, else by login, else empty.
pub open spec fn avatar_url_spec(a: AuthorView) -> Seq<char> {
    match a.0 {
        Some(id) => "https://avatars.githubusercontent.com/u/"@ + decimal_seq(id as nat) + "?s=100"@,
        None => match a.1 {
            Some(l) => "https://github.com/"@ + l + ".png?s=100"@,
            None => Seq::empty(),
        },
    }
}

fn cat2(a: &str, b: &[char]) -> (r: Vec<char>)
    ensures
        r@ == a@ + b@,
{
    let mut v = chars_of(a);
    crate::text::append(&mut v, b);
    v
}

fn cat3(a: &str, b: &[char], c: &str) -> (r: Vec<char>)
    ensures
        r@ == a@ + b@ + c@,
{
    let mut v = cat2(a, b);
    crate::text::append(&mut v, &chars_of(c));
    v
}

/// Key for de-duplicating contributors: `id:<id>`, else `login:<login>`.
pub fn contributor_key(author: &GithubAuthor) -> (r: Option<String>)
    ensures
        match r {
            Some(k) => contributor_key_spec(author@) == Some(k@),
            None => contributor_key_spec(author@) is None,
        },
{
    match author.id {
        Some(id) => Some(string_of(&cat2("id:", &decimal(id)))),
        None => match &author.login {
            Some(l) => Some(string_of(&cat2("login:", &chars_of(l.as_str())))),
            None => None,
        },
    }
}

/// Login shown for an author (`user-<id>` without a login).
pub fn display_login(author: &GithubAuthor) -> (r: String)
    ensures
        r@ == display_login_spec(author@),
{
    match &author.login {
        Some(l) => string_of(&chars_of(l.as_str())),
        None => match author.id {
            Some(id) => string_of(&cat2("user-", &decimal(id))),
            None => string_of(&chars_of("unknown")),
        },
    }
}

/// GitHub profile URL of an author.
pub fn profile_url(author: &GithubAuthor) -> (r: String)
    ensures
        r@ == profile_url_spec(author@),
{
    match &author.login {
        Some(l) => string_of(&cat2("https://github.com/", &chars_of(l.as_str()))),
        None => match author.id {
            Some(id) => string_of(&cat2("https://github.com/user/", &decimal(id))),
            None => string_of(&chars_of("#")),
        },
    }
}

/// Avatar URL of an author (numeric id preferred).
pub fn avatar_url(author: &GithubAuthor) -> (r: String)
    ensures
        r@ == avatar_url_spec(author@),
{
    match author.id {
        Some(id) => string_of(&cat3("https://avatars.githubusercontent.com/u/", &decimal(id), "?s=100")),
        None => match &author.login {
            Some(l) => string_of(&cat3("https://github.com/", &chars_of(l.as_str()), ".png?s=100")),
            None => String::new(),
        },
    }
}

/// The two authors merged: what `existing` knows wins, `incoming` fills gaps.
pub open spec fn merge_spec(existing: AuthorView, incoming: AuthorView) -> AuthorView {
    (
        match existing.0 {
            Some(i) => Some(i),
            None => incoming.0,
        },
        match existing.1 {
            Some(l) => Some(l),
            None => incoming.1,
        },
    )
}

/// Merges two records of one contributor, filling in a missing id or login.
pub fn merge_authors(existing: &GithubAuthor, incoming: &GithubAuthor) -> (r: GithubAuthor)
    ensures
        r@ == merge_spec(existing@, incoming@),
{
    let id = match existing.id {
        Some(i) => Some(i),
        None => incoming.id,
    };
    let login = match &existing.login {
        Some(_) => copy_opt_string(&existing.login),
        None => copy_opt_string(&incoming.login),
    };
    GithubAuthor { id, login }
}

/// Merging is idempotent, and a merge keeps every field the existing
/// record already has.
pub proof fn merge_keeps_known(a: AuthorView, b: AuthorView)
    ensures
        merge_spec(a, a) == a,
        a.0 is Some ==> merge_spec(a, b).0 == a.0,
        a.1 is Some ==> merge_spec(a, b).1 == a.1,
        merge_spec(merge_spec(a, b), b) == merge_spec(a, b),
{
}

/// The text of an author map file as it is parsed: leading byte order
/// marks removed.
pub fn author_map_text(text: &str) -> (r: String)
    ensures
        r@ == crate::git_cmd::trim_start_char(text@, '\u{feff}'),
{
    string_of(&crate::git_cmd::trim_start_char_exec(&chars_of(text), '\u{feff}'))
}

/// A GitHub noreply address decides the author by itself, whatever the
/// e-mail map says.
pub proof fn noreply_address_takes_precedence(email: Seq<char>, map: Map<Seq<char>, AuthorView>)
    requires
        noreply_spec(email) is Some,
    ensures
        resolve_author_spec(email, map) == noreply_spec(email),
{
}

/// Reading the e-mail map back after an insert gives the inserted author
/// for that e-mail and leaves every other e-mail as it was.
pub proof fn author_map_reads_back_insert(
    m: Map<Seq<char>, AuthorView>,
    email: Seq<char>,
    author: AuthorView,
    other: Seq<char>,
)
    requires
        other != email,
    ensures
        m.insert(email, author).dom().contains(email),
        m.insert(email, author)[email] == author,
        m.insert(email, author).dom().contains(other) == m.dom().contains(other),
        m.dom().contains(other) ==> m.insert(email, author)[other] == m[other],
{
}

/// The next thing an e-mail lookup needs.
#[derive(Debug)]
pub enum LookupStep {
    /// The lookup is over.
    Done(Option<GithubAuthor>),
    /// Ask the GitHub search API for the e-mail.
    Search,
    /// Ask the GitHub users API for this login, then merge the answer
    /// into `author` with [`merge_authors`].
    Fetch { author: GithubAuthor, login: String },
}

/// What enriching a found author asks for: a fetch by its login when a
/// fetch was asked for and the login is known, else nothing (a missing
/// numeric id stays missing without a fetch).
pub open spec fn enrich_spec(a: AuthorView, fetch: bool) -> Option<Seq<char>> {
    if fetch {
        a.1
    } else {
        None
    }
}

/// `step` is what enriching `a` gives.
pub open spec fn enrich_step_ok(step: LookupStep, a: AuthorView, fetch: bool) -> bool {
    match enrich_spec(a, fetch) {
        None => step matches LookupStep::Done(Some(x)) && x@ == a,
        Some(l) => step matches LookupStep::Fetch { author, login } && author@ == a && login@ == l,
    }
}

/// Decides whether a found author needs a fetch by login.
pub fn enrich_author(author: GithubAuthor, fetch: bool) -> (r: LookupStep)
    ensures
        enrich_step_ok(r, author@, fetch),
{
    if !fetch {
        return LookupStep::Done(Some(author));
    }
    match &author.login {
        Some(l) => {
            let login = string_of(&chars_of(l.as_str()));
            LookupStep::Fetch { author, login }
        },
        None => LookupStep::Done(Some(author)),
    }
}

/// First step of resolving an e-mail: a noreply address or a map entry is
/// enriched; otherwise the search API is asked when a token is at hand,
/// and the lookup ends empty when not.
pub fn lookup_github_user_by_email(email: &str, map: &AuthorMap, has_token: bool, fetch: bool) -> (r: LookupStep)
    ensures
        match noreply_spec(email@) {
            Some(a) => enrich_step_ok(r, a, fetch),
            None => {
                let key = lowercase_spec(trim_seq(email@));
                if map@.dom().contains(key) {
                    enrich_step_ok(r, map@[key], fetch)
                } else if has_token {
                    r is Search
                } else {
                    r matches LookupStep::Done(None)
                }
            },
        },
{
    if let Some(a) = github_from_noreply_email(email) {
        return enrich_author(a, fetch);
    }
    let key = string_of(&trim(&chars_of(email)));
    let lower = to_lowercase(key.as_str());
    if let Some(a) = map.get(lower.as_str()) {
        return enrich_author(a, fetch);
    }
    if has_token {
        LookupStep::Search
    } else {
        LookupStep::Done(None)
    }
}

/// Step after the search API answered: nothing found ends the lookup, a
/// found user is enriched.
pub fn after_search(found: Option<GithubAuthor>, fetch: bool) -> (r: LookupStep)
    ensures
        match found {
            None => r matches LookupStep::Done(None),
            Some(a) => enrich_step_ok(r, a@, fetch),
        },
{
    match found {
        None => LookupStep::Done(None),
        Some(a) => enrich_author(a, fetch),
    }
}

/// Why a GitHub API answer is refused.
#[derive(Debug)]
pub enum ApiError {
    /// The user does not exist (HTTP 404).
    NotFound(String),
    /// Any other status of the users API outside 200..300.
    Status(u16, String),
    /// The users API answer is not JSON (with the parser's reason).
    BadBody(String),
    /// A status of the search API outside 200..300.
    SearchStatus(u16, String),
    /// The search API answer is not JSON (with the parser's reason).
    SearchBadBody(String),
}

/// The author a users API answer names: its `id` member, and its `login`
/// member or, without one, the requested login.
pub open spec fn user_answer_spec(login: Seq<char>, b: JsonValue) -> AuthorView {
    let id = match b {
        JsonValue::Object(m) => match member_spec(m@, key_id()) {
            Some(x) => as_u64_spec(x),
            None => None,
        },
        _ => None,
    };
    let l = match b {
        JsonValue::Object(m) => match member_spec(m@, key_login()) {
            Some(x) => as_str_spec(x),
            None => None,
        },
        _ => None,
    };
    (id, Some(match l {
        Some(x) => x,
        None => login,
    }))
}

/// URL of the users API for `login`.
pub fn user_api_url(login: &str) -> (r: String)
    ensures
        r@ == "https://api.github.com/users/"@ + login@,
{
    string_of(&cat2("https://api.github.com/users/", &chars_of(login)))
}

/// Reads the users API answer for `login`: status 404 is `NotFound`, a
/// status outside 200..300 is `Status`, a body that did not parse as JSON
/// (`Err` with the parser's reason) is `BadBody`; otherwise the `id` member
/// and the `login` member, the requested login standing in when the answer
/// has none.
pub fn interpret_user_response(login: &str, status: u16, status_text: &str, body: Result<&JsonValue, &str>) -> (r: Result<GithubAuthor, ApiError>)
    ensures
        status == 404 ==> (r matches Err(ApiError::NotFound(l)) && l@ == login@),
        status != 404 && !(200 <= status < 300) ==> (r matches Err(ApiError::Status(c, t)) && c == status && t@ == status_text@),
        200 <= status < 300 ==> match body {
            Err(e) => r matches Err(ApiError::BadBody(d)) && d@ == e@,
            Ok(b) => r matches Ok(a) && a@ == user_answer_spec(login@, *b),
        },
{
    if status == 404 {
        return Err(ApiError::NotFound(string_of(&chars_of(login))));
    }
    if !(200 <= status && status < 300) {
        return Err(ApiError::Status(status, string_of(&chars_of(status_text))));
    }
    let b = match body {
        Ok(b) => b,
        Err(e) => {
            return Err(ApiError::BadBody(string_of(&chars_of(e))));
        },
    };
    let ik = "id";
    let lk = "login";
    proof {
        reveal_strlit("id");
        reveal_strlit("login");
    }
    assert(ik@ == key_id());
    assert(lk@ == key_login());
    let (id, api_login) = match b {
        JsonValue::Object(m) => {
            let id = match member(m, ik) {
                Some(x) => as_u64(x),
                None => None,
            };
            let l = match member(m, lk) {
                Some(JsonValue::Str(s)) => Some(string_of(&chars_of(s.as_str()))),
                _ => None,
            };
            (id, l)
        },
        _ => (None, None),
    };
    let login_out = match api_login {
        Some(l) => l,
        None => string_of(&chars_of(login)),
    };
    Ok(GithubAuthor { id, login: Some(login_out) })
}

/// URL of the search API asking for users with `email`.
pub fn search_api_url(email: &str) -> (r: String)
    ensures
        r@ == "https://api.github.com/search/users?q="@ + crate::text::percent_encode(
            vstd::utf8::encode_utf8(email@ + " in:email"@),
        ),
{
    let query = string_of(&cat3("", &chars_of(email), " in:email"));
    proof {
        reveal_strlit("");
        assert(""@ + email@ == email@);
    }
    let encoded = crate::text::url_encode(query.as_str());
    string_of(&cat2("https://api.github.com/search/users?q=", &chars_of(encoded.as_str())))
}

pub open spec fn key_items() -> Seq<char> {
    seq!['i', 't', 'e', 'm', 's']
}

/// The user a search answer names: the first item of its `items` array,
/// when that item is an object with an `id` or a `login`.
pub open spec fn search_answer_spec(b: JsonValue) -> Option<AuthorView> {
    match b {
        JsonValue::Object(m) => match member_spec(m@, key_items()) {
            Some(JsonValue::Array(items)) => if items@.len() > 0 {
                match items@[0] {
                    JsonValue::Object(f) => {
                        let id = match member_spec(f@, key_id()) {
                            Some(x) => as_u64_spec(x),
                            None => None,
                        };
                        let l = match member_spec(f@, key_login()) {
                            Some(x) => as_str_spec(x),
                            None => None,
                        };
                        if id is None && l is None {
                            None
                        } else {
                            Some((id, l))
                        }
                    },
                    _ => None,
                }
            } else {
                None
            },
            _ => None,
        },
        _ => None,
    }
}

/// Reads the search API answer: a status outside 200..300 is
/// `SearchStatus`, a body that did not parse as JSON (`Err` with the
/// parser's reason) is `SearchBadBody`; otherwise the first item found.
pub fn interpret_search_response(status: u16, status_text: &str, body: Result<&JsonValue, &str>) -> (r: Result<Option<GithubAuthor>, ApiError>)
    ensures
        !(200 <= status < 300) ==> (r matches Err(ApiError::SearchStatus(c, t)) && c == status && t@ == status_text@),
        200 <= status < 300 ==> match body {
            Err(e) => r matches Err(ApiError::SearchBadBody(d)) && d@ == e@,
            Ok(b) => r matches Ok(found) && match found {
                Some(a) => search_answer_spec(*b) == Some(a@),
                None => search_answer_spec(*b) is None,
            },
        },
{
    if !(200 <= status && status < 300) {
        return Err(ApiError::SearchStatus(status, string_of(&chars_of(status_text))));
    }
    let b = match body {
        Ok(b) => b,
        Err(e) => {
            return Err(ApiError::SearchBadBody(string_of(&chars_of(e))));
        },
    };
    let itk = "items";
    let ik = "id";
    let lk = "login";
    proof {
        reveal_strlit("items");
        reveal_strlit("id");
        reveal_strlit("login");
    }
    assert(itk@ == key_items());
    assert(ik@ == key_id());
    assert(lk@ == key_login());
    let found = match b {
        JsonValue::Object(m) => match member(m, itk) {
            Some(JsonValue::Array(items)) => {
                if items.len() > 0 {
                    match &items[0] {
                        JsonValue::Object(f) => {
                            let id = match member(f, ik) {
                                Some(x) => as_u64(x),
                                None => None,
                            };
                            let l = match member(f, lk) {
                                Some(JsonValue::Str(s)) => Some(string_of(&chars_of(s.as_str()))),
                                _ => None,
                            };
                            if id.is_none() && l.is_none() {
                                None
                            } else {
                                Some(GithubAuthor { id, login: l })
                            }
                        },
                        _ => None,
                    }
                } else {
                    None
                }
            },
            _ => None,
        },
        _ => None,
    };
    Ok(found)
}

} // verus!
