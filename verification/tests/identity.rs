use git_tools::identity::{copy_signature, retime_signature, same_contributor, signatures_match_source, Sign, Signature, Time};

fn sample_signature() -> Signature {
    Signature {
        name: b"Alice".to_vec(),
        email: b"alice@example.com".to_vec(),
        time: Time { seconds: 1_000, offset: 28_800, sign: Sign::Plus },
    }
}

#[test]
fn copy_signature_is_unchanged() {
    let original = sample_signature();
    let copied = copy_signature(sample_signature());
    assert!(same_contributor(&original, &copied));
    assert_eq!(copied.time.seconds, original.time.seconds);
    assert_eq!(copied.time.offset, original.time.offset);
    assert_eq!(copied.time.sign, original.time.sign);
}

#[test]
fn retime_signature_preserves_identity() {
    let original = sample_signature();
    let updated = retime_signature(sample_signature(), 9_999);
    assert!(same_contributor(&original, &updated));
    assert_eq!(updated.time.seconds, 9_999);
    assert_eq!(updated.time.offset, original.time.offset);
    assert_eq!(updated.time.sign, original.time.sign);
}

#[test]
fn different_people_differ() {
    let alice = sample_signature();
    let mut bob = sample_signature();
    bob.name = b"Bob".to_vec();
    let mut other_mail = sample_signature();
    other_mail.email = b"alice@other.org".to_vec();
    assert!(!same_contributor(&alice, &bob));
    assert!(!same_contributor(&alice, &other_mail));
    assert!(signatures_match_source(&alice, &alice, &sample_signature(), &sample_signature()));
    assert!(!signatures_match_source(&alice, &bob, &sample_signature(), &sample_signature()));
}

#[test]
fn same_contributor_is_symmetric_and_transitive() {
    let a = sample_signature();
    let b = retime_signature(sample_signature(), 5);
    let c = retime_signature(sample_signature(), 7);
    assert!(same_contributor(&a, &a));
    assert_eq!(same_contributor(&a, &b), same_contributor(&b, &a));
    assert!(same_contributor(&a, &b) && same_contributor(&b, &c) && same_contributor(&a, &c));
}
