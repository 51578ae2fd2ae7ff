//! Commit author/committer identities: rewriting keeps name and email and
//! may change only the timestamp.

use vstd::prelude::*;

verus! {

/// Sign of a time-zone offset.
#[derive(Debug, Clone, Copy, PartialEq, Eq, Structural)]
pub enum Sign {
    Plus,
    Minus,
}

/// A signature's time: seconds since the epoch and the zone offset.
#[derive(Debug, Clone, Copy, PartialEq, Eq, Structural)]
pub struct Time {
    pub seconds: i64,
    pub offset: i32,
    pub sign: Sign,
}

/// Author or committer of a commit.
#[derive(Debug)]
pub struct Signature {
    pub name: Vec<u8>,
    pub email: Vec<u8>,
    pub time: Time,
}

/// Two signatures name the same contributor.
pub open spec fn same_contributor_spec(left: &Signature, right: &Signature) -> bool {
    left.name@ == right.name@ && left.email@ == right.email@
}

fn bytes_eq(a: &[u8], b: &[u8]) -> (r: bool)
    ensures
        r == (a@ == b@),
{
    if a.len() != b.len() {
        return false;
    }
    let mut i: usize = 0;
    while i < a.len()
        invariant
            a@.len() == b@.len(),
            i <= a@.len(),
            a@.subrange(0, i as int) == b@.subrange(0, i as int),
        decreases a@.len() - i,
    {
        if a[i] != b[i] {
            return false;
        }
        assert(a@.subrange(0, i + 1) == a@.subrange(0, i as int).push(a@[i as int]));
        assert(b@.subrange(0, i + 1) == b@.subrange(0, i as int).push(b@[i as int]));
        i = i + 1;
    }
    assert(a@ == a@.subrange(0, a@.len() as int));
    assert(b@ == b@.subrange(0, b@.len() as int));
    true
}

/// The signature unchanged: name, email and time all kept.
pub fn copy_signature(signature: Signature) -> (r: Signature)
    ensures
        r.name@ == signature.name@,
        r.email@ == signature.email@,
        r.time == signature.time,
{
    Signature { name: signature.name, email: signature.email, time: signature.time }
}

/// The signature with `time.seconds` replaced; name, email, offset and sign kept.
pub fn retime_signature(source: Signature, seconds: i64) -> (r: Signature)
    ensures
        r.name@ == source.name@,
        r.email@ == source.email@,
        r.time.seconds == seconds,
        r.time.offset == source.time.offset,
        r.time.sign == source.time.sign,
{
    Signature {
        name: source.name,
        email: source.email,
        time: Time { seconds, offset: source.time.offset, sign: source.time.sign },
    }
}

/// Whether two signatures name the same contributor (times are ignored).
pub fn same_contributor(left: &Signature, right: &Signature) -> (r: bool)
    ensures
        r == same_contributor_spec(left, right),
{
    bytes_eq(&left.name, &right.name) && bytes_eq(&left.email, &right.email)
}

/// The check made before a commit is written with new signatures: both
/// must name the contributors of the source commit.
pub fn signatures_match_source(
    author: &Signature,
    committer: &Signature,
    source_author: &Signature,
    source_committer: &Signature,
) -> (r: bool)
    ensures
        r == (same_contributor_spec(author, source_author) && same_contributor_spec(
            committer,
            source_committer,
        )),
{
    same_contributor(author, source_author) && same_contributor(committer, source_committer)
}

/// Retiming never changes who a contributor is: the retimed signature
/// names the same contributor as the source, whatever the new time.
pub proof fn retime_keeps_contributor(source: Signature, retimed: Signature, seconds: i64)
    requires
        retimed.name@ == source.name@,
        retimed.email@ == source.email@,
        retimed.time.seconds == seconds,
    ensures
        same_contributor_spec(&source, &retimed),
        same_contributor_spec(&retimed, &source),
{
}

/// Naming the same contributor is an equivalence: reflexive, symmetric and
/// transitive.
pub proof fn same_contributor_equivalence(a: &Signature, b: &Signature, c: &Signature)
    ensures
        same_contributor_spec(a, a),
        same_contributor_spec(a, b) ==> same_contributor_spec(b, a),
        same_contributor_spec(a, b) && same_contributor_spec(b, c) ==> same_contributor_spec(a, c),
{
}

} // verus!
