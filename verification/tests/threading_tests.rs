use demail::models::Message;
use demail::threading::{calculate_subject_hash, normalize_subject, ThreadTable};
use std::collections::hash_map::DefaultHasher;
use std::hash::{Hash, Hasher};

fn message(id: i64, account_id: i64, subject: &str) -> Message {
    Message {
        id,
        account_id,
        folder_id: 1,
        imap_uid: id as u32,
        message_id_header: String::new(),
        from_header: String::from("a@b.com"),
        to_header: String::from("c@d.com"),
        cc_header: None,
        subject: String::from(subject),
        date: 0,
        body_plain: None,
        body_html: None,
        has_attachments: false,
        is_read: false,
        is_starred: false,
        thread_id: None,
        attachments: Vec::new(),
    }
}

#[test]
fn test_normalize_subject() {
    assert_eq!(normalize_subject("Re: Hello World"), "hello world");
    assert_eq!(normalize_subject("RE: Re: Test"), "test");
    assert_eq!(normalize_subject("Fwd: Important"), "important");
    assert_eq!(normalize_subject("[List] Re: Topic"), "topic");
    assert_eq!(normalize_subject("  Re:  Spaces  "), "spaces");
}

#[test]
fn test_subject_hash_consistency() {
    let hash1 = calculate_subject_hash("hello world");
    let hash2 = calculate_subject_hash("hello world");
    assert_eq!(hash1, hash2);

    let hash3 = calculate_subject_hash("different");
    assert_ne!(hash1, hash3);
}

#[test]
fn normalized_subjects_from_the_properties() {
    assert_eq!(normalize_subject("Re: Re: [team] Hello"), "hello");
    assert_eq!(normalize_subject("Hello"), "hello");
    assert_eq!(
        normalize_subject("Re: Re: [team] Hello"),
        normalize_subject("Hello")
    );
    assert_eq!(normalize_subject("Fwd: Status"), "status");
}

#[test]
fn normalize_subject_edge_cases() {
    assert_eq!(normalize_subject(""), "");
    assert_eq!(normalize_subject("   "), "");
    assert_eq!(normalize_subject("Fw: x"), "x");
    assert_eq!(normalize_subject("FWD:FW:RE:x"), "x");
    assert_eq!(normalize_subject("[open bracket"), "[open bracket");
    assert_eq!(normalize_subject("[a] [b] c"), "c");
    assert_eq!(normalize_subject("re:"), "");
    assert_eq!(normalize_subject("Hello Re: there"), "hello re: there");
}

#[test]
fn subject_hash_is_the_standard_hash_in_hexadecimal() {
    for subject in ["", "hello world", "different", "gr\u{fc}\u{df}e", "x"] {
        let mut hasher = DefaultHasher::new();
        subject.hash(&mut hasher);
        assert_eq!(
            calculate_subject_hash(subject),
            format!("{:x}", hasher.finish())
        );
    }
}

#[test]
fn same_subject_same_account_same_thread() {
    let mut threads = ThreadTable::new();
    let first = threads.classify(1, "Hello", 10, 100).unwrap();
    let second = threads.classify(1, "Re: Re: [team] Hello", 11, 200).unwrap();
    assert_eq!(first, second);
    assert_eq!(threads.len(), 1);

    let thread = threads.get(first).unwrap();
    assert_eq!(thread.first_message_id, 10);
    assert_eq!(thread.last_message_id, 11);
    assert_eq!(thread.message_count, 2);
    assert_eq!(thread.account_id, 1);
    assert_eq!(thread.created_at, 100);
    assert_eq!(thread.updated_at, 200);
    assert_eq!(thread.subject_hash, calculate_subject_hash("hello"));
}

#[test]
fn same_subject_other_account_other_thread() {
    let mut threads = ThreadTable::new();
    let first = threads.classify(1, "Hello", 10, 100).unwrap();
    let other = threads.classify(2, "Hello", 11, 200).unwrap();
    assert_ne!(first, other);
    assert_eq!(threads.len(), 2);
    assert_eq!(threads.get(other).unwrap().message_count, 1);
    assert_eq!(threads.get(other).unwrap().first_message_id, 11);
    assert_eq!(threads.thread_for(2, "RE: hello"), Some(other));
    assert_eq!(threads.thread_for(3, "hello"), None);
}

#[test]
fn threads_of_an_account_go_with_it() {
    let mut threads = ThreadTable::new();
    let a = threads.classify(1, "One", 1, 1).unwrap();
    let b = threads.classify(2, "Two", 2, 2).unwrap();
    threads.remove_account(1);
    assert!(threads.get(a).is_none());
    assert!(threads.get(b).is_some());
    let c = threads.classify(1, "One", 3, 3).unwrap();
    assert_ne!(c, a);
    assert_ne!(c, b);
    let _ = message(1, 1, "unused");
}
