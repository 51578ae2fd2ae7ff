//! Planning a history rewrite at the object layer.
//!
//! Commits of a range are visited oldest first. A commit gets a new object
//! when its message changes or when one of its parents was given a new
//! object earlier in the walk; every other commit keeps its id. The plan
//! says, for each commit, whether it is kept or written and with which
//! parents and message; whoever writes the objects fills in the new ids.

use vstd::prelude::*;

use crate::oid::ObjectId;
use crate::text::{first_line, first_line_seq, trim, trim_seq};

verus! {

/// A commit of the range as the planner sees it.
#[derive(Debug)]
pub struct CommitInfo {
    /// The commit's id.
    pub oid: ObjectId,
    /// Its parents' ids, in order.
    pub parents: Vec<ObjectId>,
    /// Its full message, trailing white space removed.
    pub message: String,
}

/// A requested message for one commit.
#[derive(Debug)]
pub struct MessageUpdate {
    pub oid: ObjectId,
    pub message: String,
}

/// A parent of a rewritten commit.
#[derive(Debug)]
pub enum NewParent {
    /// An id that stays as it is.
    Existing(ObjectId),
    /// The new object written for the commit at this index of the range.
    Rewritten(usize),
}

/// What happens to one commit of the range.
#[derive(Debug)]
pub enum CommitAction {
    /// The commit keeps its id.
    Keep,
    /// A new commit object is written with these parents and this message.
    Write { parents: Vec<NewParent>, message: String },
}

/// Summary of one rewritten commit.
#[derive(Debug)]
pub struct PlannedChange {
    pub old_oid: ObjectId,
    pub old_subject: String,
    pub new_subject: String,
    /// A parent was rewritten, so the parent links change.
    pub parents_relinked: bool,
    /// The (trimmed) message differs from the old one.
    pub message_changed: bool,
}

/// The plan for a whole range.
#[derive(Debug)]
pub struct RewritePlan {
    /// One action per commit of the range, in range order.
    pub actions: Vec<CommitAction>,
    /// The rewritten commits, in range order.
    pub changes: Vec<PlannedChange>,
    /// Where the tip ends up.
    pub new_tip: NewParent,
}

/// Why a rewrite cannot be planned.
#[derive(Debug, Clone, Copy, PartialEq, Eq, Structural)]
pub enum RewriteError {
    /// The range holds no commit.
    EmptyRange,
    /// The tip is not a commit of the range.
    TipNotFound,
    /// No commit object was rewritten.
    NothingRewritten,
}

/// Summary fields of a planned change, as values.
pub type ChangeView = (Seq<u8>, Seq<char>, Seq<char>, bool, bool);

impl PlannedChange {
    pub open spec fn view_tuple(&self) -> ChangeView {
        (self.old_oid@, self.old_subject@, self.new_subject@, self.parents_relinked, self.message_changed)
    }
}

/// The requested message for `oid`: the first update that names it.
pub open spec fn update_for(updates: Seq<MessageUpdate>, oid: Seq<u8>) -> Option<Seq<char>>
    decreases updates.len(),
{
    if updates.len() == 0 {
        None
    } else if updates[0].oid@ == oid {
        Some(updates[0].message@)
    } else {
        update_for(updates.drop_first(), oid)
    }
}

/// The message a commit ends up with before trimming.
pub open spec fn new_message_spec(updates: Seq<MessageUpdate>, c: CommitInfo) -> Seq<char> {
    match update_for(updates, c.oid@) {
        Some(m) => m,
        None => c.message@,
    }
}

/// The commit's trimmed message changes.
pub open spec fn message_changed_spec(updates: Seq<MessageUpdate>, c: CommitInfo) -> bool {
    trim_seq(new_message_spec(updates, c)) != trim_seq(c.message@)
}

/// Index of the last commit before index `i` whose id is `p`.
pub open spec fn last_before(chain: Seq<CommitInfo>, i: int, p: Seq<u8>) -> Option<int>
    decreases i,
{
    if i <= 0 {
        None
    } else if chain[i - 1].oid@ == p {
        Some(i - 1)
    } else {
        last_before(chain, i - 1, p)
    }
}

/// Parent `p` of the commit at `i` was given a new object.
pub open spec fn parent_rewritten(chain: Seq<CommitInfo>, flags: Seq<bool>, i: int, p: Seq<u8>) -> bool {
    match last_before(chain, i, p) {
        Some(j) => flags[j],
        None => false,
    }
}

/// Some parent of the commit at `i` was given a new object.
pub open spec fn any_parent_rewritten(chain: Seq<CommitInfo>, flags: Seq<bool>, i: int) -> bool {
    exists|k: int|
        0 <= k < chain[i].parents@.len() && #[trigger] parent_rewritten(
            chain,
            flags,
            i,
            chain[i].parents@[k]@,
        )
}

/// For each of the first `n` commits, whether it gets a new object.
pub open spec fn rewritten_flags(chain: Seq<CommitInfo>, updates: Seq<MessageUpdate>, n: nat) -> Seq<bool>
    decreases n,
{
    if n == 0 {
        Seq::empty()
    } else {
        let f = rewritten_flags(chain, updates, (n - 1) as nat);
        f.push(
            message_changed_spec(updates, chain[n - 1]) || any_parent_rewritten(chain, f, n - 1),
        )
    }
}

/// `np` is what parent `p` of the commit at `i` becomes.
pub open spec fn new_parent_ok(np: NewParent, chain: Seq<CommitInfo>, flags: Seq<bool>, i: int, p: Seq<u8>) -> bool {
    match last_before(chain, i, p) {
        Some(j) => if flags[j] {
            np == NewParent::Rewritten(j as usize)
        } else {
            np matches NewParent::Existing(o) && o@ == p
        },
        None => np matches NewParent::Existing(o) && o@ == p,
    }
}

/// `a` is the action for the commit at `i`.
pub open spec fn action_ok(
    a: CommitAction,
    chain: Seq<CommitInfo>,
    updates: Seq<MessageUpdate>,
    flags: Seq<bool>,
    i: int,
) -> bool {
    if flags[i] {
        a matches CommitAction::Write { parents, message } && message@ == trim_seq(
            new_message_spec(updates, chain[i]),
        ) && parents@.len() == chain[i].parents@.len() && forall|k: int|
            0 <= k < parents@.len() ==> new_parent_ok(
                #[trigger] parents@[k],
                chain,
                flags,
                i,
                chain[i].parents@[k]@,
            )
    } else {
        a is Keep
    }
}

/// The summary for the commit at `i`.
pub open spec fn change_spec(chain: Seq<CommitInfo>, updates: Seq<MessageUpdate>, flags: Seq<bool>, i: int) -> ChangeView {
    (
        chain[i].oid@,
        trim_seq(first_line_seq(chain[i].message@)),
        trim_seq(first_line_seq(new_message_spec(updates, chain[i]))),
        any_parent_rewritten(chain, flags, i),
        message_changed_spec(updates, chain[i]),
    )
}

/// Summaries of the rewritten commits among the first `n`, in order.
pub open spec fn changes_upto(
    chain: Seq<CommitInfo>,
    updates: Seq<MessageUpdate>,
    flags: Seq<bool>,
    n: nat,
) -> Seq<ChangeView>
    decreases n,
{
    if n == 0 {
        Seq::empty()
    } else {
        let prev = changes_upto(chain, updates, flags, (n - 1) as nat);
        if flags[n - 1] {
            prev.push(change_spec(chain, updates, flags, n - 1))
        } else {
            prev
        }
    }
}

/// The summaries a plan for `chain` reports.
pub open spec fn planned_changes(chain: Seq<CommitInfo>, updates: Seq<MessageUpdate>) -> Seq<ChangeView> {
    changes_upto(chain, updates, rewritten_flags(chain, updates, chain.len()), chain.len())
}

/// Index of the last commit of the range whose id is `tip`.
pub open spec fn tip_index(chain: Seq<CommitInfo>, tip: Seq<u8>) -> Option<int> {
    last_before(chain, chain.len() as int, tip)
}

pub open spec fn views_of_changes(v: Seq<PlannedChange>) -> Seq<ChangeView> {
    v.map_values(|c: PlannedChange| c.view_tuple())
}

proof fn lemma_flags_len(chain: Seq<CommitInfo>, updates: Seq<MessageUpdate>, n: nat)
    ensures
        rewritten_flags(chain, updates, n).len() == n,
    decreases n,
{
    if n > 0 {
        lemma_flags_len(chain, updates, (n - 1) as nat);
    }
}

proof fn lemma_flags_prefix(chain: Seq<CommitInfo>, updates: Seq<MessageUpdate>, m: nat, n: nat)
    requires
        m <= n,
    ensures
        rewritten_flags(chain, updates, n).subrange(0, m as int) == rewritten_flags(chain, updates, m),
    decreases n,
{
    lemma_flags_len(chain, updates, n);
    lemma_flags_len(chain, updates, m);
    if m < n {
        lemma_flags_prefix(chain, updates, m, (n - 1) as nat);
        lemma_flags_len(chain, updates, (n - 1) as nat);
        assert(rewritten_flags(chain, updates, n).subrange(0, m as int) == rewritten_flags(
            chain,
            updates,
            (n - 1) as nat,
        ).subrange(0, m as int));
    } else {
        assert(rewritten_flags(chain, updates, n).subrange(0, m as int) =~= rewritten_flags(
            chain,
            updates,
            n,
        ));
    }
}

proof fn lemma_last_before_lt(chain: Seq<CommitInfo>, i: int, p: Seq<u8>)
    ensures
        last_before(chain, i, p) matches Some(j) ==> 0 <= j < i && chain[j].oid@ == p,
    decreases i,
{
    if i > 0 {
        lemma_last_before_lt(chain, i - 1, p);
    }
}

proof fn lemma_parent_rewritten_prefix(chain: Seq<CommitInfo>, f: Seq<bool>, g: Seq<bool>, i: int, p: Seq<u8>)
    requires
        0 <= i <= f.len(),
        f.subrange(0, i) == g.subrange(0, i),
        i <= g.len(),
    ensures
        parent_rewritten(chain, f, i, p) == parent_rewritten(chain, g, i, p),
{
    lemma_last_before_lt(chain, i, p);
    if let Some(j) = last_before(chain, i, p) {
        assert(f[j] == f.subrange(0, i)[j]);
        assert(g[j] == g.subrange(0, i)[j]);
    }
}

fn find_update(updates: &Vec<MessageUpdate>, oid: &ObjectId) -> (r: Option<usize>)
    ensures
        match r {
            Some(k) => k < updates@.len() && update_for(updates@, oid@) == Some(updates@[k as int].message@),
            None => update_for(updates@, oid@) is None,
        },
{
    let mut i: usize = 0;
    assert(updates@.subrange(0, updates@.len() as int) == updates@);
    while i < updates.len()
        invariant
            i <= updates@.len(),
            update_for(updates@, oid@) == update_for(updates@.subrange(i as int, updates@.len() as int), oid@),
        decreases updates@.len() - i,
    {
        let ghost rest = updates@.subrange(i as int, updates@.len() as int);
        if updates[i].oid.same(oid) {
            assert(rest[0] == updates@[i as int]);
            return Some(i);
        }
        assert(rest.drop_first() == updates@.subrange(i + 1, updates@.len() as int));
        i = i + 1;
    }
    None
}

fn find_last_before(chain: &Vec<CommitInfo>, i: usize, p: &ObjectId) -> (r: Option<usize>)
    requires
        i <= chain@.len(),
    ensures
        match r {
            Some(j) => last_before(chain@, i as int, p@) == Some(j as int) && j < i,
            None => last_before(chain@, i as int, p@) is None,
        },
{
    let mut k: usize = i;
    while k > 0
        invariant
            k <= i <= chain@.len(),
            last_before(chain@, i as int, p@) == last_before(chain@, k as int, p@),
        decreases k,
    {
        if chain[k - 1].oid.same(p) {
            return Some(k - 1);
        }
        k = k - 1;
    }
    None
}

/// The message written for a commit: the requested one, else the old one, trimmed.
fn chosen_message(updates: &Vec<MessageUpdate>, c: &CommitInfo) -> (r: Vec<char>)
    ensures
        r@ == new_message_spec(updates@, *c),
{
    match find_update(updates, &c.oid) {
        Some(k) => crate::text::chars_of(updates[k].message.as_str()),
        None => crate::text::chars_of(c.message.as_str()),
    }
}

/// Works out, for the commit at `i`, its new parents and whether any of
/// them was rewritten, given the flags of the commits before it.
fn relink_parents(chain: &Vec<CommitInfo>, flags: &Vec<bool>, i: usize) -> (r: (Vec<NewParent>, bool))
    requires
        i < chain@.len(),
        flags@.len() == i,
    ensures
        r.0@.len() == chain@[i as int].parents@.len(),
        forall|k: int|
            0 <= k < r.0@.len() ==> new_parent_ok(#[trigger] r.0@[k], chain@, flags@, i as int, chain@[i as int].parents@[k]@),
        r.1 == any_parent_rewritten(chain@, flags@, i as int),
{
    let c = &chain[i];
    let mut out: Vec<NewParent> = Vec::new();
    let mut any = false;
    let mut k: usize = 0;
    while k < c.parents.len()
        invariant
            i < chain@.len(),
            flags@.len() == i,
            *c == chain@[i as int],
            k <= c.parents@.len(),
            out@.len() == k,
            forall|m: int|
                0 <= m < k ==> new_parent_ok(#[trigger] out@[m], chain@, flags@, i as int, c.parents@[m]@),
            any == exists|m: int|
                0 <= m < k && #[trigger] parent_rewritten(chain@, flags@, i as int, c.parents@[m]@),
        decreases c.parents@.len() - k,
    {
        let p = &c.parents[k];
        proof {
            lemma_last_before_lt(chain@, i as int, p@);
        }
        let np = match find_last_before(chain, i, p) {
            Some(j) => {
                if flags[j] {
                    any = true;
                    NewParent::Rewritten(j)
                } else {
                    NewParent::Existing(p.copy())
                }
            },
            None => NewParent::Existing(p.copy()),
        };
        out.push(np);
        proof {
            assert(parent_rewritten(chain@, flags@, i as int, c.parents@[k as int]@) ==> any);
            if any {
                if !(exists|m: int| 0 <= m < k && #[trigger] parent_rewritten(chain@, flags@, i as int, c.parents@[m]@)) {
                    assert(parent_rewritten(chain@, flags@, i as int, c.parents@[k as int]@));
                }
            }
        }
        k = k + 1;
    }
    (out, any)
}

fn summary(
    c: &CommitInfo,
    new_message: &Vec<char>,
    parents_relinked: bool,
    message_changed: bool,
) -> (r: PlannedChange)
    ensures
        r.old_oid@ == c.oid@,
        r.old_subject@ == trim_seq(first_line_seq(c.message@)),
        r.new_subject@ == trim_seq(first_line_seq(new_message@)),
        r.parents_relinked == parents_relinked,
        r.message_changed == message_changed,
{
    let old_chars = crate::text::chars_of(c.message.as_str());
    let old_subject = trim(&first_line(&old_chars));
    let new_subject = trim(&first_line(new_message));
    PlannedChange {
        old_oid: c.oid.copy(),
        old_subject: crate::text::string_of(&old_subject),
        new_subject: crate::text::string_of(&new_subject),
        parents_relinked,
        message_changed,
    }
}

/// Decides every commit of `chain`: returns the actions, the summaries
/// and the flags of the commits that get new objects.
fn decide(chain: &Vec<CommitInfo>, updates: &Vec<MessageUpdate>) -> (r: (Vec<CommitAction>, Vec<PlannedChange>, Vec<bool>))
    ensures
        r.2@ == rewritten_flags(chain@, updates@, chain@.len()),
        r.0@.len() == chain@.len(),
        forall|i: int| 0 <= i < chain@.len() ==> action_ok(#[trigger] r.0@[i], chain@, updates@, r.2@, i),
        views_of_changes(r.1@) == planned_changes(chain@, updates@),
{
    let mut actions: Vec<CommitAction> = Vec::new();
    let mut changes: Vec<PlannedChange> = Vec::new();
    let mut flags: Vec<bool> = Vec::new();
    let mut i: usize = 0;
    let ghost full = rewritten_flags(chain@, updates@, chain@.len());
    proof {
        lemma_flags_len(chain@, updates@, chain@.len());
    }
    while i < chain.len()
        invariant
            i <= chain@.len(),
            full == rewritten_flags(chain@, updates@, chain@.len()),
            full.len() == chain@.len(),
            flags@ == rewritten_flags(chain@, updates@, i as nat),
            flags@ == full.subrange(0, i as int),
            actions@.len() == i,
            forall|m: int| 0 <= m < i ==> action_ok(#[trigger] actions@[m], chain@, updates@, full, m),
            views_of_changes(changes@) == changes_upto(chain@, updates@, full, i as nat),
        decreases chain@.len() - i,
    {
        let c = &chain[i];
        let (parents, relinked) = relink_parents(chain, &flags, i);
        let new_message = chosen_message(updates, c);
        let trimmed_new = trim(&new_message);
        let old_chars = crate::text::chars_of(c.message.as_str());
        let trimmed_old = trim(&old_chars);
        let changed = !crate::text::eq_chars(&trimmed_new, &trimmed_old);
        let rewrite = changed || relinked;
        let ghost prev_flags = flags@;
        let ghost prev_changes = changes@;
        proof {
            lemma_flags_prefix(chain@, updates@, (i + 1) as nat, chain@.len());
            lemma_flags_len(chain@, updates@, (i + 1) as nat);
            assert(rewritten_flags(chain@, updates@, (i + 1) as nat) == prev_flags.push(rewrite));
        }
        if rewrite {
            changes.push(summary(c, &new_message, relinked, changed));
            actions.push(CommitAction::Write { parents, message: crate::text::string_of(&trimmed_new) });
        } else {
            actions.push(CommitAction::Keep);
        }
        flags.push(rewrite);
        proof {
            assert(flags@ == full.subrange(0, i + 1));
            assert(full[i as int] == full.subrange(0, i + 1)[i as int]);
            assert(full[i as int] == rewrite);
            assert(prev_flags.subrange(0, i as int) == prev_flags);
            assert(full.subrange(0, i as int) == full.subrange(0, i + 1).subrange(0, i as int));
            assert forall|k: int| 0 <= k < chain@[i as int].parents@.len() implies
                parent_rewritten(chain@, prev_flags, i as int, chain@[i as int].parents@[k]@)
                    == parent_rewritten(chain@, full, i as int, chain@[i as int].parents@[k]@) by {
                lemma_parent_rewritten_prefix(chain@, prev_flags, full, i as int, chain@[i as int].parents@[k]@);
            }
            assert(any_parent_rewritten(chain@, prev_flags, i as int) == any_parent_rewritten(chain@, full, i as int));
            if rewrite {
                assert forall|k: int| 0 <= k < parents@.len() implies new_parent_ok(
                    #[trigger] parents@[k],
                    chain@,
                    full,
                    i as int,
                    chain@[i as int].parents@[k]@,
                ) by {
                    lemma_last_before_lt(chain@, i as int, chain@[i as int].parents@[k]@);
                    assert(new_parent_ok(parents@[k], chain@, prev_flags, i as int, chain@[i as int].parents@[k]@));
                    if let Some(j) = last_before(chain@, i as int, chain@[i as int].parents@[k]@) {
                        assert(prev_flags[j] == full[j]);
                    }
                }
                assert(views_of_changes(changes@) == views_of_changes(prev_changes).push(
                    change_spec(chain@, updates@, full, i as int),
                ));
            }
            assert(action_ok(actions@[i as int], chain@, updates@, full, i as int));
        }
        i = i + 1;
    }
    proof {
        assert(flags@ == full);
    }
    (actions, changes, flags)
}

/// Plans the rewrite of `chain` (the range, oldest first) with the
/// requested messages, and says where `tip` ends up.
///
/// Errors: the range is empty, or `tip` is not one of its commits.
pub fn plan_rewrite(chain: &Vec<CommitInfo>, tip: &ObjectId, updates: &Vec<MessageUpdate>) -> (r: Result<
    RewritePlan,
    RewriteError,
>)
    ensures
        chain@.len() == 0 ==> r == Err::<RewritePlan, RewriteError>(RewriteError::EmptyRange),
        chain@.len() > 0 && tip_index(chain@, tip@) is None ==> r == Err::<RewritePlan, RewriteError>(
            RewriteError::TipNotFound,
        ),
        chain@.len() > 0 && tip_index(chain@, tip@) is Some ==> r is Ok,
        r matches Ok(plan) ==> {
            let flags = rewritten_flags(chain@, updates@, chain@.len());
            &&& plan.actions@.len() == chain@.len()
            &&& forall|i: int|
                0 <= i < chain@.len() ==> action_ok(#[trigger] plan.actions@[i], chain@, updates@, flags, i)
            &&& views_of_changes(plan.changes@) == planned_changes(chain@, updates@)
            &&& new_parent_ok(plan.new_tip, chain@, flags, chain@.len() as int, tip@)
            &&& forall|i: int|
                0 <= i < chain@.len() && (update_for(updates@, chain@[i].oid@) matches Some(m) && trim_seq(m)
                    != trim_seq(chain@[i].message@)) ==> (#[trigger] plan.actions@[i] matches CommitAction::Write {
                    message,
                    ..
                } && message@ == trim_seq(update_for(updates@, chain@[i].oid@)->0))
        },
{
    if chain.len() == 0 {
        return Err(RewriteError::EmptyRange);
    }
    let (actions, changes, flags) = decide(chain, updates);
    proof {
        lemma_last_before_lt(chain@, chain@.len() as int, tip@);
        lemma_flags_len(chain@, updates@, chain@.len());
    }
    let new_tip = match find_last_before(chain, chain.len(), tip) {
        None => {
            return Err(RewriteError::TipNotFound);
        },
        Some(j) => if flags[j] {
            NewParent::Rewritten(j)
        } else {
            NewParent::Existing(tip.copy())
        },
    };
    proof {
        let flags = rewritten_flags(chain@, updates@, chain@.len());
        assert forall|i: int|
            0 <= i < chain@.len() && (update_for(updates@, chain@[i].oid@) matches Some(m) && trim_seq(m)
                != trim_seq(chain@[i].message@)) implies (#[trigger] actions@[i] matches CommitAction::Write {
                message,
                ..
            } && message@ == trim_seq(update_for(updates@, chain@[i].oid@)->0)) by {
            rewritten_exactly_when_requested_text_differs(chain@, updates@, i);
            assert(action_ok(actions@[i], chain@, updates@, flags, i));
        }
    }
    Ok(RewritePlan { actions, changes, new_tip })
}

/// The summaries a rewrite of `chain` would report, without planning any
/// object: exactly the `changes` of [`plan_rewrite`] on the same range.
pub fn dry_run_plan(chain: &Vec<CommitInfo>, updates: &Vec<MessageUpdate>) -> (r: Vec<PlannedChange>)
    ensures
        views_of_changes(r@) == planned_changes(chain@, updates@),
{
    let (_actions, changes, _flags) = decide(chain, updates);
    changes
}

/// A commit gets a new object exactly when its trimmed message changes or
/// one of its parents, earlier in the range, got a new object.
pub proof fn rewritten_iff_changed_or_relinked(chain: Seq<CommitInfo>, updates: Seq<MessageUpdate>, i: int)
    requires
        0 <= i < chain.len(),
    ensures
        rewritten_flags(chain, updates, chain.len())[i] == (message_changed_spec(updates, chain[i])
            || any_parent_rewritten(chain, rewritten_flags(chain, updates, chain.len()), i)),
{
    let full = rewritten_flags(chain, updates, chain.len());
    let pre = rewritten_flags(chain, updates, i as nat);
    lemma_flags_prefix(chain, updates, (i + 1) as nat, chain.len());
    lemma_flags_prefix(chain, updates, i as nat, chain.len());
    lemma_flags_len(chain, updates, chain.len());
    lemma_flags_len(chain, updates, i as nat);
    assert(full[i] == full.subrange(0, i + 1)[i]);
    assert(full.subrange(0, i) == pre);
    assert(pre.subrange(0, i) == pre);
    assert forall|k: int| 0 <= k < chain[i].parents@.len() implies
        parent_rewritten(chain, pre, i, chain[i].parents@[k]@) == parent_rewritten(chain, full, i, chain[i].parents@[k]@) by {
        lemma_parent_rewritten_prefix(chain, pre, full, i, chain[i].parents@[k]@);
    }
    assert(any_parent_rewritten(chain, pre, i) == any_parent_rewritten(chain, full, i));
}

/// A commit gets a new object exactly when the map asks for a message whose
/// trimmed text differs from the commit's trimmed message, or one of its
/// parents got a new object; the object it gets carries the requested
/// message, trimmed. A map entry whose trimmed text equals the old one
/// changes nothing by itself.
pub proof fn rewritten_exactly_when_requested_text_differs(
    chain: Seq<CommitInfo>,
    updates: Seq<MessageUpdate>,
    i: int,
)
    requires
        0 <= i < chain.len(),
    ensures
        ({
            let flags = rewritten_flags(chain, updates, chain.len());
            let requested_differs = match update_for(updates, chain[i].oid@) {
                Some(m) => trim_seq(m) != trim_seq(chain[i].message@),
                None => false,
            };
            &&& flags[i] == (requested_differs || any_parent_rewritten(chain, flags, i))
            &&& update_for(updates, chain[i].oid@) matches Some(m) ==> trim_seq(new_message_spec(updates, chain[i]))
                == trim_seq(m)
            &&& update_for(updates, chain[i].oid@) is None ==> trim_seq(new_message_spec(updates, chain[i]))
                == trim_seq(chain[i].message@)
            &&& change_spec(chain, updates, flags, i).4 == requested_differs
        }),
{
    rewritten_iff_changed_or_relinked(chain, updates, i);
}

/// Commits before the first one whose message changes keep their ids:
/// if none of the first `m` commits has a changed message, none of them
/// is rewritten.
pub proof fn unchanged_prefix_is_kept(chain: Seq<CommitInfo>, updates: Seq<MessageUpdate>, m: nat)
    requires
        m <= chain.len(),
        forall|j: int| 0 <= j < m ==> !message_changed_spec(updates, #[trigger] chain[j]),
    ensures
        forall|j: int| 0 <= j < m ==> !#[trigger] rewritten_flags(chain, updates, chain.len())[j],
    decreases m,
{
    if m > 0 {
        unchanged_prefix_is_kept(chain, updates, (m - 1) as nat);
        let full = rewritten_flags(chain, updates, chain.len());
        let j = m - 1;
        rewritten_iff_changed_or_relinked(chain, updates, j);
        assert forall|k: int| 0 <= k < chain[j].parents@.len() implies !#[trigger] parent_rewritten(
            chain,
            full,
            j,
            chain[j].parents@[k]@,
        ) by {
            lemma_last_before_lt(chain, j, chain[j].parents@[k]@);
        }
    }
}

/// With no message changing, nothing is rewritten: every action is
/// `Keep`, no change is reported and the tip stays where it is.
pub proof fn no_change_no_rewrite(chain: Seq<CommitInfo>, updates: Seq<MessageUpdate>)
    requires
        forall|j: int| 0 <= j < chain.len() ==> !message_changed_spec(updates, #[trigger] chain[j]),
    ensures
        forall|j: int| 0 <= j < chain.len() ==> !#[trigger] rewritten_flags(chain, updates, chain.len())[j],
        planned_changes(chain, updates) == Seq::<ChangeView>::empty(),
        forall|tip: Seq<u8>| #[trigger] tip_index(chain, tip) is Some ==> !rewritten_flags(chain, updates, chain.len())[tip_index(chain, tip)->0],
{
    unchanged_prefix_is_kept(chain, updates, chain.len());
    let full = rewritten_flags(chain, updates, chain.len());
    lemma_flags_len(chain, updates, chain.len());
    lemma_no_changes(chain, updates, full, chain.len());
    assert forall|tip: Seq<u8>| #[trigger] tip_index(chain, tip) is Some implies !rewritten_flags(chain, updates, chain.len())[tip_index(chain, tip)->0] by {
        lemma_last_before_lt(chain, chain.len() as int, tip);
    }
}

/// A dry run reports exactly the changes that the rewrite itself reports
/// for the same range and map.
pub proof fn dry_run_agrees_with_rewrite(
    chain: Seq<CommitInfo>,
    updates: Seq<MessageUpdate>,
    rewrite_changes: Seq<PlannedChange>,
    dry_run_changes: Seq<PlannedChange>,
)
    requires
        views_of_changes(rewrite_changes) == planned_changes(chain, updates),
        views_of_changes(dry_run_changes) == planned_changes(chain, updates),
    ensures
        views_of_changes(dry_run_changes) == views_of_changes(rewrite_changes),
{
}

proof fn lemma_no_changes(chain: Seq<CommitInfo>, updates: Seq<MessageUpdate>, flags: Seq<bool>, n: nat)
    requires
        n <= flags.len(),
        forall|j: int| 0 <= j < n ==> !#[trigger] flags[j],
    ensures
        changes_upto(chain, updates, flags, n) == Seq::<ChangeView>::empty(),
    decreases n,
{
    if n > 0 {
        lemma_no_changes(chain, updates, flags, (n - 1) as nat);
    }
}

} // verus!
