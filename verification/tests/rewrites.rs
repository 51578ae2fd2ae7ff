use git_tools::oid::{short, synthetic_oid, ObjectId};
use git_tools::rewrite::{dry_run_plan, plan_rewrite, CommitAction, CommitInfo, MessageUpdate, NewParent, RewriteError};

fn oid(n: u8) -> ObjectId {
    ObjectId::from_bytes(vec![n; 20])
}

fn info(n: u8, parents: Vec<u8>, message: &str) -> CommitInfo {
    CommitInfo { oid: oid(n), parents: parents.into_iter().map(oid).collect(), message: message.to_string() }
}

fn update(n: u8, message: &str) -> MessageUpdate {
    MessageUpdate { oid: oid(n), message: message.to_string() }
}

fn chain() -> Vec<CommitInfo> {
    vec![info(1, vec![0], "one"), info(2, vec![1], "two\n\nbody"), info(3, vec![2], "three")]
}

#[test]
fn nothing_requested_keeps_every_commit() {
    let plan = plan_rewrite(&chain(), &oid(3), &vec![]).unwrap();
    assert!(plan.actions.iter().all(|a| matches!(a, CommitAction::Keep)));
    assert!(plan.changes.is_empty());
    assert!(matches!(&plan.new_tip, NewParent::Existing(o) if o.same(&oid(3))));
}

#[test]
fn a_changed_message_relinks_descendants_only() {
    let updates = vec![update(2, "  two v2  ")];
    let plan = plan_rewrite(&chain(), &oid(3), &updates).unwrap();
    assert!(matches!(plan.actions[0], CommitAction::Keep));
    match &plan.actions[1] {
        CommitAction::Write { parents, message } => {
            assert_eq!(message, "two v2");
            assert!(matches!(&parents[0], NewParent::Existing(o) if o.same(&oid(1))));
        }
        _ => panic!("commit 2 must be written"),
    }
    match &plan.actions[2] {
        CommitAction::Write { parents, message } => {
            assert_eq!(message, "three");
            assert!(matches!(parents[0], NewParent::Rewritten(1)));
        }
        _ => panic!("commit 3 must be relinked"),
    }
    assert!(matches!(plan.new_tip, NewParent::Rewritten(2)));
    assert_eq!(plan.changes.len(), 2);
    assert_eq!(plan.changes[0].old_subject, "two");
    assert_eq!(plan.changes[0].new_subject, "two v2");
    assert!(plan.changes[0].message_changed && !plan.changes[0].parents_relinked);
    assert!(!plan.changes[1].message_changed && plan.changes[1].parents_relinked);
    let dry = dry_run_plan(&chain(), &updates);
    assert_eq!(dry.len(), plan.changes.len());
    for (d, p) in dry.iter().zip(plan.changes.iter()) {
        assert!(d.old_oid.same(&p.old_oid));
        assert_eq!(d.old_subject, p.old_subject);
        assert_eq!(d.new_subject, p.new_subject);
        assert_eq!(d.parents_relinked, p.parents_relinked);
        assert_eq!(d.message_changed, p.message_changed);
    }
}

#[test]
fn whitespace_only_edits_change_nothing() {
    let plan = plan_rewrite(&chain(), &oid(3), &vec![update(1, "one\n\n")]).unwrap();
    assert!(plan.changes.is_empty());
}

#[test]
fn plan_errors() {
    assert!(matches!(plan_rewrite(&vec![], &oid(3), &vec![]), Err(RewriteError::EmptyRange)));
    assert!(matches!(plan_rewrite(&chain(), &oid(9), &vec![]), Err(RewriteError::TipNotFound)));
}

#[test]
fn synthetic_ids_differ_and_invert_back() {
    let seed = ObjectId::from_bytes((0u8..20).collect());
    let fake = synthetic_oid(&seed);
    assert!(!fake.same(&seed));
    assert_eq!(fake.bytes[19], 255 - 19);
    assert!(synthetic_oid(&fake).same(&seed));
    assert_eq!(short(&seed), "00010203");
    assert_eq!(seed.to_hex(), "000102030405060708090a0b0c0d0e0f10111213");
}
