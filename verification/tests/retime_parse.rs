use git_tools::calendar::{CivilDate, CivilDateTime};
use git_tools::identity::{Sign, Signature, Time};
use git_tools::oid::ObjectId;
use git_tools::retime::{
    author_datetime, parse_date, parse_datetime, plan_retime_chain, random_timestamps, resolve_end, resolve_start,
    retime_branch, retime_report, retimed_tip, window_holds, RetimeCommit, RetimeError, RetimeSummary,
};
use git_tools::rewrite::NewParent;

fn at(y: i32, mo: u32, d: u32, h: u32, mi: u32, s: u32) -> CivilDateTime {
    CivilDateTime { date: CivilDate { year: y, month: mo, day: d }, hour: h, minute: mi, second: s, nanosecond: 0 }
}

#[test]
fn parse_iso_date() {
    let parsed = parse_date("2019-01-01").unwrap();
    assert_eq!(parsed.date(), CivilDate { year: 2019, month: 1, day: 1 });
}

#[test]
fn parse_iso_datetime() {
    let parsed = parse_datetime("2019-03-22T14:30:00").unwrap();
    assert_eq!(parsed.hour(), 14);
    assert_eq!(parsed.minute(), 30);
}

#[test]
fn random_timestamps_are_unique() {
    let start = parse_datetime("2020-01-01T00:00:00").unwrap();
    let end = resolve_end(None, &start, 30).unwrap();
    let stamps = random_timestamps(5, &start, &end).unwrap();
    assert_eq!(stamps.len(), 5);
    assert!(stamps.windows(2).all(|pair| pair[0] < pair[1]));
}

#[test]
fn datetime_formats_and_fallbacks() {
    assert_eq!(parse_datetime("2019-03-22 14:30:05").unwrap(), at(2019, 3, 22, 14, 30, 5));
    let fraction = parse_datetime("2019-03-22T14:30:05.25").unwrap();
    assert_eq!(fraction.second(), 5);
    assert_eq!(fraction.nanosecond, 250_000_000);
    assert_eq!(parse_datetime("2019-03-22").unwrap(), at(2019, 3, 22, 0, 0, 0));
    assert_eq!(parse_datetime("22/03/2019"), Err(RetimeError::DateParse));
    assert_eq!(parse_date("2019-02-30"), Err(RetimeError::DateParse));
    assert_eq!(parse_date("2019-03-22T10:00:00"), Err(RetimeError::DateParse));
}

#[test]
fn window_defaults() {
    let epoch = author_datetime(0).unwrap();
    assert_eq!(epoch, at(1970, 1, 1, 0, 0, 0));
    assert_eq!(author_datetime(1_431_648_000).unwrap(), at(2015, 5, 15, 0, 0, 0));
    assert_eq!(author_datetime(i64::MAX), Err(RetimeError::TimestampOutOfRange));
    assert_eq!(resolve_start(None, 86_399).unwrap(), at(1970, 1, 1, 23, 59, 59));
    assert_eq!(resolve_start(Some("2001-02-03"), 0).unwrap(), at(2001, 2, 3, 0, 0, 0));
    let start = at(2020, 2, 27, 12, 0, 0);
    assert_eq!(resolve_end(None, &start, 3).unwrap(), at(2020, 3, 1, 12, 0, 0));
    assert_eq!(resolve_end(Some("2021-01-01T00:00:00"), &start, 3).unwrap(), at(2021, 1, 1, 0, 0, 0));
    assert_eq!(retime_branch(&None), "time-travel");
    assert_eq!(retime_branch(&Some("dev".to_string())), "dev");
}

#[test]
fn narrow_window_uses_every_second() {
    let start = at(2020, 1, 1, 0, 0, 0);
    let end = at(2020, 1, 1, 0, 0, 5);
    assert!(window_holds(5, &start, &end));
    assert!(!window_holds(6, &start, &end));
    let stamps = random_timestamps(5, &start, &end).unwrap();
    assert_eq!(stamps, vec![1_577_836_800, 1_577_836_801, 1_577_836_802, 1_577_836_803, 1_577_836_804]);
}

#[test]
fn window_errors_and_empty_requests() {
    let start = at(2020, 1, 1, 0, 0, 0);
    assert_eq!(random_timestamps(0, &start, &start), Ok(vec![]));
    assert_eq!(random_timestamps(1, &start, &start), Err(RetimeError::EmptyWindow));
    let stamps = random_timestamps(3, &start, &at(2020, 1, 2, 0, 0, 0)).unwrap();
    assert!(stamps.iter().all(|s| (1_577_836_800..1_577_923_200).contains(s)));
}

fn signature(name: &str, seconds: i64) -> Signature {
    Signature {
        name: name.as_bytes().to_vec(),
        email: format!("{name}@x").into_bytes(),
        time: Time { seconds, offset: 3600, sign: Sign::Minus },
    }
}

fn oid(n: u8) -> ObjectId {
    ObjectId::from_bytes(vec![n; 20])
}

fn commit(n: u8, parents: Vec<ObjectId>, message: &str) -> RetimeCommit {
    RetimeCommit {
        oid: oid(n),
        parents,
        message: message.to_string(),
        author: signature("ann", 1),
        committer: signature("cid", 2),
    }
}

#[test]
fn plan_relinks_and_retimes_every_commit() {
    let chain = vec![commit(1, vec![oid(0)], "root"), commit(2, vec![oid(1)], "two"), commit(3, vec![oid(2), oid(9)], "three")];
    let plan = plan_retime_chain(&chain, &vec![100, 200, 300], None).unwrap();
    assert_eq!(plan.len(), 3);
    assert!(matches!(&plan[0].parents[0], NewParent::Existing(o) if o.same(&oid(0))));
    assert!(matches!(plan[1].parents[0], NewParent::Rewritten(0)));
    assert!(matches!(plan[2].parents[0], NewParent::Rewritten(1)));
    assert!(matches!(&plan[2].parents[1], NewParent::Existing(o) if o.same(&oid(9))));
    assert_eq!(plan[0].message, "root");
    assert_eq!(plan[2].author.time.seconds, 300);
    assert_eq!(plan[2].committer.time.seconds, 300);
    assert_eq!(plan[2].author.name, b"ann".to_vec());
    assert_eq!(plan[2].committer.email, b"cid@x".to_vec());
    assert_eq!(plan[1].author.time.offset, 3600);
    assert_eq!(plan[1].author.time.sign, Sign::Minus);
    assert!(plan.windows(2).all(|w| w[0].author.time.seconds < w[1].author.time.seconds));
    assert!(matches!(retimed_tip(plan.len()), NewParent::Rewritten(2)));
}

#[test]
fn plan_root_message_and_errors() {
    let chain = vec![commit(1, vec![], "root"), commit(2, vec![oid(1)], "two")];
    let plan = plan_retime_chain(&chain, &vec![5, 6], Some("🎂 Project initialized!")).unwrap();
    assert_eq!(plan[0].message, "🎂 Project initialized!");
    assert_eq!(plan[1].message, "two");
    assert_eq!(plan_retime_chain(&vec![], &vec![], None).unwrap_err(), RetimeError::EmptyRange);
    assert_eq!(
        plan_retime_chain(&chain, &vec![1], None).unwrap_err(),
        RetimeError::TimestampCount { expected: 2, got: 1 }
    );
}

#[test]
fn retime_summary_line() {
    let summary = RetimeSummary { branch: "time-travel".to_string(), new_tip: oid(0xab), rewritten: 3 };
    assert_eq!(retime_report(&summary), "retimed 3 commit(s) on branch time-travel; tip abababab");
}
