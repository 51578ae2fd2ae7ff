//! Spreading commit timestamps over a window.
//!
//! A window is read from dates or date-times, the commits of a range get
//! distinct random Unix seconds inside it, oldest first, and each commit
//! is planned anew with those seconds on both its author and committer.
//! Names and e-mails are never touched; parents are relinked to the new
//! objects of earlier commits of the range.

use vstd::prelude::*;

use rand::Rng;

use crate::calendar::{
    at_midnight, chrono_add_days, chrono_from_timestamp, chrono_timestamp, naive_date_parse, naive_datetime_parse,
    parse_naive_date, parse_naive_datetime, unix_seconds, at_midnight_spec, CivilDateTime, MAX_UNIX_SECONDS,
    MIN_UNIX_SECONDS,
};
use crate::identity::{retime_signature, same_contributor_spec, Signature, Time};
use crate::oid::{hex_seq, short, take8, ObjectId};
use crate::rewrite::NewParent;
use crate::text::{append, chars_of, decimal, decimal_seq, string_of};

verus! {

/// Range retime: rewrites `(commit..tip]`.
#[derive(Debug)]
pub struct RetimeOptions {
    /// Range start; it is not rewritten itself.
    pub commit: String,
    /// Window start (`YYYY-MM-DD` or a date-time); defaults to the start commit's author time.
    pub start_date: Option<String>,
    /// Window end; defaults to the start plus one day per rewritten commit.
    pub end_date: Option<String>,
    /// Branch to write; defaults to `time-travel`.
    pub branch: Option<String>,
    /// Range end revision.
    pub tip: String,
}

/// Retime from the root: rewrites `[root..tip]`.
#[derive(Debug)]
pub struct RetimeRootOptions {
    /// Window start; defaults to the root commit's author time.
    pub start_date: Option<String>,
    /// Window end; defaults to the start plus one day per rewritten commit.
    pub end_date: Option<String>,
    /// Branch to write; defaults to `time-travel`.
    pub branch: Option<String>,
    /// Range end revision.
    pub tip: String,
    /// A new message for the root commit.
    pub message: Option<String>,
}

/// What a retime wrote.
#[derive(Debug)]
pub struct RetimeSummary {
    /// The branch created or moved.
    pub branch: String,
    /// Its new tip.
    pub new_tip: ObjectId,
    /// How many commits were rewritten.
    pub rewritten: usize,
}

/// Why a retime cannot go on.
#[derive(Debug, Clone, Copy, PartialEq, Eq, Structural)]
pub enum RetimeError {
    /// A date or date-time did not parse.
    DateParse,
    /// The window's end is not after its start.
    EmptyWindow,
    /// A commit's author time lies outside the representable dates.
    TimestampOutOfRange,
    /// The range holds no commit.
    EmptyRange,
    /// The number of timestamps differs from the number of commits.
    TimestampCount { expected: usize, got: usize },
}

/// A commit of the range, as read from the repository.
#[derive(Debug)]
pub struct RetimeCommit {
    pub oid: ObjectId,
    pub parents: Vec<ObjectId>,
    /// Full message, trailing white space removed.
    pub message: String,
    pub author: Signature,
    pub committer: Signature,
}

/// The new commit object planned for one commit of the range.
#[derive(Debug)]
pub struct RetimedCommit {
    pub parents: Vec<NewParent>,
    pub message: String,
    pub author: Signature,
    pub committer: Signature,
}

/// The branch written by a retime: the one asked for, else `time-travel`.
pub fn retime_branch(branch: &Option<String>) -> (r: String)
    ensures
        r@ == match branch {
            Some(b) => b@,
            None => "time-travel"@,
        },
{
    match branch {
        Some(b) => string_of(&chars_of(b.as_str())),
        None => string_of(&chars_of("time-travel")),
    }
}

/// `parse_date` on `input`: its date at midnight.
pub open spec fn parse_date_spec(input: Seq<char>) -> Option<CivilDateTime> {
    match naive_date_parse(input, "%Y-%m-%d"@) {
        Some(d) => Some(at_midnight_spec(d)),
        None => None,
    }
}

/// `parse_datetime` on `input`: the first of the date-time formats that
/// accepts it, else its date at midnight.
pub open spec fn parse_datetime_spec(input: Seq<char>) -> Option<CivilDateTime> {
    match naive_datetime_parse(input, "%Y-%m-%dT%H:%M:%S"@) {
        Some(t) => Some(t),
        None => match naive_datetime_parse(input, "%Y-%m-%d %H:%M:%S"@) {
            Some(t) => Some(t),
            None => match naive_datetime_parse(input, "%Y-%m-%dT%H:%M:%S%.f"@) {
                Some(t) => Some(t),
                None => match naive_datetime_parse(input, "%Y-%m-%d %H:%M:%S%.f"@) {
                    Some(t) => Some(t),
                    None => parse_date_spec(input),
                },
            },
        },
    }
}

/// The date-time formats a window bound is read with: `T` or a space
/// between date and time, with or without a fraction of a second. Any
/// text that one of them accepts is read, as what the first accepting
/// format (in this order) gives; a text none of them accepts is read as
/// a `%Y-%m-%d` date at midnight, or refused.
pub proof fn datetime_formats_are_all_tried(input: Seq<char>)
    ensures
        ({
            let f1 = naive_datetime_parse(input, "%Y-%m-%dT%H:%M:%S"@);
            let f2 = naive_datetime_parse(input, "%Y-%m-%d %H:%M:%S"@);
            let f3 = naive_datetime_parse(input, "%Y-%m-%dT%H:%M:%S%.f"@);
            let f4 = naive_datetime_parse(input, "%Y-%m-%d %H:%M:%S%.f"@);
            &&& f1 is Some ==> parse_datetime_spec(input) == f1
            &&& f1 is None && f2 is Some ==> parse_datetime_spec(input) == f2
            &&& f1 is None && f2 is None && f3 is Some ==> parse_datetime_spec(input) == f3
            &&& f1 is None && f2 is None && f3 is None && f4 is Some ==> parse_datetime_spec(input) == f4
            &&& (f1 is Some || f2 is Some || f3 is Some || f4 is Some) ==> parse_datetime_spec(input) is Some
            &&& f1 is None && f2 is None && f3 is None && f4 is None ==> parse_datetime_spec(input) == match naive_date_parse(
                input,
                "%Y-%m-%d"@,
            ) {
                Some(d) => Some(at_midnight_spec(d)),
                None => None::<CivilDateTime>,
            }
        }),
{
}

/// The parse result as this module reports it.
pub open spec fn parsed_or_error(p: Option<CivilDateTime>) -> Result<CivilDateTime, RetimeError> {
    match p {
        Some(t) => Ok(t),
        None => Err(RetimeError::DateParse),
    }
}

/// Reads `YYYY-MM-DD` as that day at 00:00:00.
pub fn parse_date(input: &str) -> (r: Result<CivilDateTime, RetimeError>)
    ensures
        r == parsed_or_error(parse_date_spec(input@)),
        r matches Ok(t) ==> t.valid(),
{
    match parse_naive_date(input, "%Y-%m-%d") {
        Some(d) => Ok(at_midnight(d)),
        None => Err(RetimeError::DateParse),
    }
}

/// Reads a date-time (`YYYY-MM-DDTHH:MM:SS` or with a space, optionally
/// with a fraction) or, failing that, a date at 00:00:00.
pub fn parse_datetime(input: &str) -> (r: Result<CivilDateTime, RetimeError>)
    ensures
        r == parsed_or_error(parse_datetime_spec(input@)),
        naive_datetime_parse(input@, "%Y-%m-%dT%H:%M:%S"@) is Some || naive_datetime_parse(input@, "%Y-%m-%d %H:%M:%S"@)
            is Some || naive_datetime_parse(input@, "%Y-%m-%dT%H:%M:%S%.f"@) is Some || naive_datetime_parse(
            input@,
            "%Y-%m-%d %H:%M:%S%.f"@,
        ) is Some ==> r is Ok,
        r matches Ok(t) ==> t.valid(),
{
    if let Some(t) = parse_naive_datetime(input, "%Y-%m-%dT%H:%M:%S") {
        return Ok(t);
    }
    if let Some(t) = parse_naive_datetime(input, "%Y-%m-%d %H:%M:%S") {
        return Ok(t);
    }
    if let Some(t) = parse_naive_datetime(input, "%Y-%m-%dT%H:%M:%S%.f") {
        return Ok(t);
    }
    if let Some(t) = parse_naive_datetime(input, "%Y-%m-%d %H:%M:%S%.f") {
        return Ok(t);
    }
    parse_date(input)
}

/// A commit's author time (Unix seconds) as a UTC date-time.
///
/// Error: the seconds lie outside the representable dates.
pub fn author_datetime(seconds: i64) -> (r: Result<CivilDateTime, RetimeError>)
    ensures
        (MIN_UNIX_SECONDS <= seconds <= MAX_UNIX_SECONDS) <==> r is Ok,
        r is Err ==> r == Err::<CivilDateTime, RetimeError>(RetimeError::TimestampOutOfRange),
        r matches Ok(t) ==> t.valid() && unix_seconds(t) == seconds && t.nanosecond == 0,
{
    match chrono_from_timestamp(seconds) {
        Some(t) => Ok(t),
        None => Err(RetimeError::TimestampOutOfRange),
    }
}

/// The window start: the given text, parsed, or else the fallback commit's
/// author time (`fallback_author_seconds`).
pub fn resolve_start(start_date: Option<&str>, fallback_author_seconds: i64) -> (r: Result<CivilDateTime, RetimeError>)
    ensures
        match start_date {
            Some(s) => r == parsed_or_error(parse_datetime_spec(s@)),
            None => {
                &&& (MIN_UNIX_SECONDS <= fallback_author_seconds <= MAX_UNIX_SECONDS) <==> r is Ok
                &&& r is Err ==> r == Err::<CivilDateTime, RetimeError>(RetimeError::TimestampOutOfRange)
                &&& r matches Ok(t) ==> unix_seconds(t) == fallback_author_seconds && t.nanosecond == 0
            },
        },
        r matches Ok(t) ==> t.valid(),
{
    match start_date {
        Some(s) => parse_datetime(s),
        None => author_datetime(fallback_author_seconds),
    }
}

/// The window end: the given text, parsed, or else `commit_count` days after `start`.
pub fn resolve_end(end_date: Option<&str>, start: &CivilDateTime, commit_count: usize) -> (r: Result<
    CivilDateTime,
    RetimeError,
>)
    requires
        start.valid(),
        end_date is None ==> unix_seconds(*start) + 86400 * commit_count <= MAX_UNIX_SECONDS,
    ensures
        match end_date {
            Some(s) => r == parsed_or_error(parse_datetime_spec(s@)),
            None => (r matches Ok(t) && unix_seconds(t) == unix_seconds(*start) + 86400 * commit_count),
        },
        r matches Ok(t) ==> t.valid(),
{
    match end_date {
        Some(s) => parse_datetime(s),
        None => {
            assert(commit_count <= MAX_UNIX_SECONDS) by (nonlinear_arith)
                requires
                    unix_seconds(*start) + 86400 * commit_count <= MAX_UNIX_SECONDS,
                    unix_seconds(*start) >= i64::MIN,
            ;
            Ok(chrono_add_days(start, commit_count as i64))
        },
    }
}

/// Every element is smaller than the next ones.
pub open spec fn strictly_increasing(s: Seq<i64>) -> bool {
    forall|i: int, j: int| 0 <= i < j < s.len() ==> s[i] < s[j]
}

/// The window `[start, end)` has room for `count` distinct seconds.
pub open spec fn window_fits(count: nat, start: CivilDateTime, end: CivilDateTime) -> bool {
    count <= unix_seconds(end) - unix_seconds(start)
}

/// Whether `[start, end)` has room for `count` distinct seconds; drawing
/// that many from a smaller window would never end.
pub fn window_holds(count: usize, start: &CivilDateTime, end: &CivilDateTime) -> (r: bool)
    requires
        start.valid(),
        end.valid(),
    ensures
        r == window_fits(count as nat, *start, *end),
{
    let s = chrono_timestamp(start);
    let e = chrono_timestamp(end);
    (count as i128) <= (e as i128) - (s as i128)
}

/// `rand::Rng::gen_range(low..high)` on the thread's generator: some value
/// of `[low, high)`, by chance.
#[verifier::external_body]
fn random_in_range(low: i64, high: i64) -> (r: i64)
    requires
        low < high,
    ensures
        low <= r < high,
{
    rand::thread_rng().gen_range(low..high)
}

fn contains_stamp(v: &Vec<i64>, x: i64) -> (r: bool)
    ensures
        r == v@.contains(x),
{
    let mut i: usize = 0;
    while i < v.len()
        invariant
            i <= v@.len(),
            forall|k: int| 0 <= k < i ==> v@[k] != x,
        decreases v@.len() - i,
    {
        if v[i] == x {
            assert(v@[i as int] == x);
            return true;
        }
        i = i + 1;
    }
    false
}

/// Inserts `x` into a strictly increasing vector that lacks it, keeping it so.
fn insert_sorted(v: &mut Vec<i64>, x: i64)
    requires
        strictly_increasing(old(v)@),
        !old(v)@.contains(x),
    ensures
        strictly_increasing(final(v)@),
        final(v)@.len() == old(v)@.len() + 1,
        forall|y: i64| final(v)@.contains(y) <==> (old(v)@.contains(y) || y == x),
{
    let ghost before = v@;
    let mut p: usize = 0;
    while p < v.len() && v[p] < x
        invariant
            v@ == before,
            p <= v@.len(),
            forall|k: int| 0 <= k < p ==> v@[k] < x,
        decreases v@.len() - p,
    {
        p = p + 1;
    }
    proof {
        if p < v@.len() {
            assert(v@[p as int] != x);
            assert(v@[p as int] > x);
            assert forall|k: int| p <= k < v@.len() implies v@[k] > x by {
                if k > p {
                    assert(v@[p as int] < v@[k]);
                }
            }
        }
    }
    v.insert(p, x);
    proof {
        let after = v@;
        assert(after == before.insert(p as int, x));
        assert forall|i: int, j: int| 0 <= i < j < after.len() implies after[i] < after[j] by {
            if j < p {
            } else if j == p {
            } else if i < p {
                assert(after[j] == before[j - 1]);
            } else if i == p {
                assert(after[j] == before[j - 1]);
            } else {
                assert(after[i] == before[i - 1]);
                assert(after[j] == before[j - 1]);
            }
        }
        assert forall|y: i64| after.contains(y) <==> (before.contains(y) || y == x) by {
            if after.contains(y) {
                let k = choose|k: int| 0 <= k < after.len() && after[k] == y;
                if k < p {
                    assert(before[k] == y);
                } else if k > p {
                    assert(before[k - 1] == y);
                }
            }
            if before.contains(y) {
                let k = choose|k: int| 0 <= k < before.len() && before[k] == y;
                if k < p {
                    assert(after[k] == y);
                } else {
                    assert(after[k + 1] == y);
                }
            }
            if y == x {
                assert(after[p as int] == x);
            }
        }
    }
}

/// `count` distinct Unix seconds of `[start, end)`, chosen at random and
/// returned in increasing order.
///
/// Error: `count > 0` and the window is empty (`end` not after `start`).
pub fn random_timestamps(count: usize, start: &CivilDateTime, end: &CivilDateTime) -> (r: Result<
    Vec<i64>,
    RetimeError,
>)
    requires
        start.valid(),
        end.valid(),
        count > 0 && unix_seconds(*start) < unix_seconds(*end) ==> window_fits(count as nat, *start, *end),
    ensures
        count == 0 ==> (r matches Ok(v) && v@.len() == 0),
        count > 0 && unix_seconds(*end) <= unix_seconds(*start) ==> r == Err::<Vec<i64>, RetimeError>(
            RetimeError::EmptyWindow,
        ),
        count > 0 && unix_seconds(*start) < unix_seconds(*end) ==> r is Ok,
        r matches Ok(v) ==> {
            &&& v@.len() == count
            &&& strictly_increasing(v@)
            &&& forall|i: int| 0 <= i < v@.len() ==> unix_seconds(*start) <= #[trigger] v@[i] < unix_seconds(*end)
        },
{
    if count == 0 {
        return Ok(Vec::new());
    }
    let start_secs = chrono_timestamp(start);
    let end_secs = chrono_timestamp(end);
    if end_secs <= start_secs {
        return Err(RetimeError::EmptyWindow);
    }
    // Floyd's sampling: for each `j` of the last `count` seconds of the
    // window, draw from `[start, j]` and take `j` itself on a repeat.
    let low128: i128 = (end_secs as i128) - (count as i128);
    let low: i64 = low128 as i64;
    let mut stamps: Vec<i64> = Vec::new();
    let mut j: i64 = low;
    while j < end_secs
        invariant
            start_secs <= low <= j <= end_secs,
            low == end_secs - count,
            stamps@.len() == j - low,
            strictly_increasing(stamps@),
            forall|k: int| 0 <= k < stamps@.len() ==> start_secs <= #[trigger] stamps@[k] < j,
        decreases end_secs - j,
    {
        let t = random_in_range(start_secs, j + 1);
        let pick = if contains_stamp(&stamps, t) {
            proof {
                if stamps@.contains(j) {
                    let k = choose|k: int| 0 <= k < stamps@.len() && stamps@[k] == j;
                    assert(stamps@[k] < j);
                }
            }
            j
        } else {
            t
        };
        let ghost before = stamps@;
        insert_sorted(&mut stamps, pick);
        proof {
            assert forall|k: int| 0 <= k < stamps@.len() implies start_secs <= #[trigger] stamps@[k] < j + 1 by {
                assert(stamps@.contains(stamps@[k]));
                if before.contains(stamps@[k]) {
                    let m = choose|m: int| 0 <= m < before.len() && before[m] == stamps@[k];
                    assert(start_secs <= before[m] < j);
                }
            }
        }
        j = j + 1;
    }
    Ok(stamps)
}

/// Index of the last commit before index `i` whose id is `p`.
pub open spec fn retime_source(chain: Seq<RetimeCommit>, i: int, p: Seq<u8>) -> Option<int>
    decreases i,
{
    if i <= 0 {
        None
    } else if chain[i - 1].oid@ == p {
        Some(i - 1)
    } else {
        retime_source(chain, i - 1, p)
    }
}

/// `np` is what parent `p` of the commit at `i` becomes: the new object
/// of the last earlier commit with that id, else the id itself.
pub open spec fn retimed_parent_ok(np: NewParent, chain: Seq<RetimeCommit>, i: int, p: Seq<u8>) -> bool {
    match retime_source(chain, i, p) {
        Some(j) => np == NewParent::Rewritten(j as usize),
        None => np matches NewParent::Existing(o) && o@ == p,
    }
}

/// `new` is `old` with its time moved to `seconds`: same name, e-mail and
/// zone offset.
pub open spec fn retimed_from(new: Signature, old: Signature, seconds: i64) -> bool {
    &&& new.name@ == old.name@
    &&& new.email@ == old.email@
    &&& new.time == Time { seconds, offset: old.time.offset, sign: old.time.sign }
}

/// The message the commit at `i` keeps: the root's may be replaced.
pub open spec fn retimed_message(chain: Seq<RetimeCommit>, root_message: Option<Seq<char>>, i: int) -> Seq<char> {
    if i == 0 && root_message is Some {
        root_message->0
    } else {
        chain[i].message@
    }
}

/// `c` is the planned object for the commit at `i`.
pub open spec fn retimed_ok(
    c: RetimedCommit,
    chain: Seq<RetimeCommit>,
    timestamps: Seq<i64>,
    root_message: Option<Seq<char>>,
    i: int,
) -> bool {
    &&& c.parents@.len() == chain[i].parents@.len()
    &&& forall|k: int|
        0 <= k < c.parents@.len() ==> retimed_parent_ok(#[trigger] c.parents@[k], chain, i, chain[i].parents@[k]@)
    &&& c.message@ == retimed_message(chain, root_message, i)
    &&& retimed_from(c.author, chain[i].author, timestamps[i])
    &&& retimed_from(c.committer, chain[i].committer, timestamps[i])
}

pub open spec fn opt_str_view(o: Option<&str>) -> Option<Seq<char>> {
    match o {
        Some(s) => Some(s@),
        None => None,
    }
}

proof fn lemma_source_lt(chain: Seq<RetimeCommit>, i: int, p: Seq<u8>)
    ensures
        retime_source(chain, i, p) matches Some(j) ==> 0 <= j < i && chain[j].oid@ == p,
    decreases i,
{
    if i > 0 {
        lemma_source_lt(chain, i - 1, p);
    }
}

fn find_source(chain: &Vec<RetimeCommit>, i: usize, p: &ObjectId) -> (r: Option<usize>)
    requires
        i <= chain@.len(),
    ensures
        match r {
            Some(j) => retime_source(chain@, i as int, p@) == Some(j as int) && j < i,
            None => retime_source(chain@, i as int, p@) is None,
        },
{
    let mut k: usize = i;
    while k > 0
        invariant
            k <= i <= chain@.len(),
            retime_source(chain@, i as int, p@) == retime_source(chain@, k as int, p@),
        decreases k,
    {
        if chain[k - 1].oid.same(p) {
            return Some(k - 1);
        }
        k = k - 1;
    }
    None
}

fn copy_bytes(v: &Vec<u8>) -> (r: Vec<u8>)
    ensures
        r@ == v@,
{
    let mut r: Vec<u8> = Vec::new();
    let mut i: usize = 0;
    while i < v.len()
        invariant
            i <= v@.len(),
            r@ == v@.subrange(0, i as int),
        decreases v@.len() - i,
    {
        r.push(v[i]);
        i = i + 1;
    }
    assert(v@.subrange(0, v@.len() as int) == v@);
    r
}

fn retimed_signature(source: &Signature, seconds: i64) -> (r: Signature)
    ensures
        retimed_from(r, *source, seconds),
{
    let copy = Signature { name: copy_bytes(&source.name), email: copy_bytes(&source.email), time: source.time };
    retime_signature(copy, seconds)
}

fn relink(chain: &Vec<RetimeCommit>, i: usize) -> (r: Vec<NewParent>)
    requires
        i < chain@.len(),
    ensures
        r@.len() == chain@[i as int].parents@.len(),
        forall|k: int|
            0 <= k < r@.len() ==> retimed_parent_ok(#[trigger] r@[k], chain@, i as int, chain@[i as int].parents@[k]@),
{
    let c = &chain[i];
    let mut out: Vec<NewParent> = Vec::new();
    let mut k: usize = 0;
    while k < c.parents.len()
        invariant
            i < chain@.len(),
            *c == chain@[i as int],
            k <= c.parents@.len(),
            out@.len() == k,
            forall|m: int| 0 <= m < k ==> retimed_parent_ok(#[trigger] out@[m], chain@, i as int, c.parents@[m]@),
        decreases c.parents@.len() - k,
    {
        let p = &c.parents[k];
        let np = match find_source(chain, i, p) {
            Some(j) => NewParent::Rewritten(j),
            None => NewParent::Existing(p.copy()),
        };
        out.push(np);
        k = k + 1;
    }
    out
}

/// Plans the new object of every commit of `chain` (oldest first): the
/// commit at `i` gets `timestamps[i]` as author and committer time, keeps
/// its names, e-mails, zone offsets and message (the first commit takes
/// `root_message` when one is given), and its parents are relinked. The
/// new tip is the object planned for the last commit.
///
/// Errors: the chain is empty; the number of timestamps differs.
pub fn plan_retime_chain(chain: &Vec<RetimeCommit>, timestamps: &Vec<i64>, root_message: Option<&str>) -> (r: Result<
    Vec<RetimedCommit>,
    RetimeError,
>)
    ensures
        chain@.len() == 0 ==> r == Err::<Vec<RetimedCommit>, RetimeError>(RetimeError::EmptyRange),
        chain@.len() > 0 && chain@.len() != timestamps@.len() ==> r == Err::<Vec<RetimedCommit>, RetimeError>(
            RetimeError::TimestampCount { expected: chain@.len() as usize, got: timestamps@.len() as usize },
        ),
        chain@.len() > 0 && chain@.len() == timestamps@.len() ==> r is Ok,
        r matches Ok(plan) ==> {
            &&& plan@.len() == chain@.len()
            &&& forall|i: int|
                0 <= i < chain@.len() ==> retimed_ok(
                    #[trigger] plan@[i],
                    chain@,
                    timestamps@,
                    opt_str_view(root_message),
                    i,
                )
        },
{
    if chain.len() == 0 {
        return Err(RetimeError::EmptyRange);
    }
    if chain.len() != timestamps.len() {
        return Err(RetimeError::TimestampCount { expected: chain.len(), got: timestamps.len() });
    }
    let mut plan: Vec<RetimedCommit> = Vec::new();
    let mut i: usize = 0;
    while i < chain.len()
        invariant
            chain@.len() == timestamps@.len(),
            i <= chain@.len(),
            plan@.len() == i,
            forall|m: int|
                0 <= m < i ==> retimed_ok(#[trigger] plan@[m], chain@, timestamps@, opt_str_view(root_message), m),
        decreases chain@.len() - i,
    {
        let c = &chain[i];
        let parents = relink(chain, i);
        let message = if i == 0 && root_message.is_some() {
            match root_message {
                Some(m) => string_of(&chars_of(m)),
                None => string_of(&chars_of(c.message.as_str())),
            }
        } else {
            string_of(&chars_of(c.message.as_str()))
        };
        let author = retimed_signature(&c.author, timestamps[i]);
        let committer = retimed_signature(&c.committer, timestamps[i]);
        plan.push(RetimedCommit { parents, message, author, committer });
        proof {
            assert(retimed_ok(plan@[i as int], chain@, timestamps@, opt_str_view(root_message), i as int));
        }
        i = i + 1;
    }
    Ok(plan)
}

/// Where the tip of a retimed range ends up: the object planned for the
/// last commit.
pub fn retimed_tip(plan_len: usize) -> (r: NewParent)
    requires
        plan_len > 0,
    ensures
        r == NewParent::Rewritten((plan_len - 1) as usize),
{
    NewParent::Rewritten(plan_len - 1)
}

/// Where the walk to the root commit goes from a commit.
#[derive(Debug)]
pub enum RootWalk {
    /// The commit has no parent: it is the root.
    Root(ObjectId),
    /// Go on with the first parent.
    Parent(ObjectId),
}

/// One step of the walk along first parents to the root commit: the
/// commit `current` with parents `parents`.
pub fn root_walk_step(current: &ObjectId, parents: &Vec<ObjectId>) -> (r: RootWalk)
    ensures
        parents@.len() == 0 ==> (r matches RootWalk::Root(o) && o@ == current@),
        parents@.len() > 0 ==> (r matches RootWalk::Parent(o) && o@ == parents@[0]@),
{
    if parents.len() == 0 {
        RootWalk::Root(current.copy())
    } else {
        RootWalk::Parent(parents[0].copy())
    }
}

/// The line printed after a retime.
pub fn retime_report(summary: &RetimeSummary) -> (r: String)
    ensures
        r@ == "retimed "@ + decimal_seq(summary.rewritten as nat) + " commit(s) on branch "@ + summary.branch@
            + "; tip "@ + take8(hex_seq(summary.new_tip@)),
{
    let mut out = chars_of("retimed ");
    append(&mut out, &decimal(summary.rewritten as u64));
    append(&mut out, &chars_of(" commit(s) on branch "));
    append(&mut out, &chars_of(summary.branch.as_str()));
    append(&mut out, &chars_of("; tip "));
    append(&mut out, &chars_of(short(&summary.new_tip).as_str()));
    string_of(&out)
}

/// A retimed commit names the same author and committer as its source
/// commit, so the identity check made before writing it always passes;
/// author and committer get the same new time.
pub proof fn retimed_commit_keeps_identities(
    c: RetimedCommit,
    chain: Seq<RetimeCommit>,
    timestamps: Seq<i64>,
    root_message: Option<Seq<char>>,
    i: int,
)
    requires
        0 <= i < chain.len(),
        retimed_ok(c, chain, timestamps, root_message, i),
    ensures
        same_contributor_spec(&c.author, &chain[i].author),
        same_contributor_spec(&c.committer, &chain[i].committer),
        c.author.time.seconds == c.committer.time.seconds,
        c.author.time.seconds == timestamps[i],
{
}

/// With increasing timestamps, a plan keeps the commits in time order:
/// an older commit of the range gets an earlier time than a newer one.
pub proof fn retimed_times_follow_range_order(
    plan: Seq<RetimedCommit>,
    chain: Seq<RetimeCommit>,
    timestamps: Seq<i64>,
    root_message: Option<Seq<char>>,
    i: int,
    j: int,
)
    requires
        plan.len() == chain.len(),
        timestamps.len() == chain.len(),
        forall|k: int| 0 <= k < chain.len() ==> retimed_ok(#[trigger] plan[k], chain, timestamps, root_message, k),
        strictly_increasing(timestamps),
        0 <= i < j < chain.len(),
    ensures
        plan[i].author.time.seconds < plan[j].author.time.seconds,
        plan[i].committer.time.seconds < plan[j].committer.time.seconds,
{
    assert(retimed_ok(plan[i], chain, timestamps, root_message, i));
    assert(retimed_ok(plan[j], chain, timestamps, root_message, j));
}

/// Every commit of a retimed range gets a new object: a parent that is an
/// earlier commit of the range always points at that commit's new object.
pub proof fn retimed_parents_point_into_plan(
    c: RetimedCommit,
    chain: Seq<RetimeCommit>,
    timestamps: Seq<i64>,
    root_message: Option<Seq<char>>,
    i: int,
    k: int,
)
    requires
        chain.len() <= usize::MAX,
        0 <= i < chain.len(),
        retimed_ok(c, chain, timestamps, root_message, i),
        0 <= k < chain[i].parents@.len(),
        exists|j: int| 0 <= j < i && chain[j].oid@ == chain[i].parents@[k]@,
    ensures
        c.parents@[k] matches NewParent::Rewritten(j) && j < i && chain[j as int].oid@ == chain[i].parents@[k]@,
{
    let p = chain[i].parents@[k]@;
    let w = choose|j: int| 0 <= j < i && chain[j].oid@ == p;
    lemma_source_found(chain, i, p, w);
    lemma_source_lt(chain, i, p);
    assert(retimed_parent_ok(c.parents@[k], chain, i, p));
    let j = retime_source(chain, i, p)->0;
    assert(c.parents@[k] == NewParent::Rewritten(j as usize));
    assert((j as usize) as int == j);
}

proof fn lemma_source_found(chain: Seq<RetimeCommit>, i: int, p: Seq<u8>, w: int)
    requires
        0 <= w < i,
        chain[w].oid@ == p,
    ensures
        retime_source(chain, i, p) is Some,
    decreases i,
{
    if i - 1 != w && chain[i - 1].oid@ != p {
        lemma_source_found(chain, i - 1, p, w);
    }
}

} // verus!
