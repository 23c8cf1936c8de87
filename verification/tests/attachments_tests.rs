use demail::api::{get_messages_paginated, save_draft, search_messages, validate_draft};
use demail::attachments::{
    file_extension, has_dangerous_extension, is_dangerous_extension,
    validate_attachment_safety, AttachmentTable, MAX_ATTACHMENT_SIZE,
};
use demail::cache::{get_drafts, save_message, CacheStore};
use demail::error::DEmailError;
use demail::export::{message_folder_name, pdf_source};
use demail::models::{Attachment, Draft, Message};
use demail::validation::{
    email_verdict, filename_verdict, query_verdict, sanitize_filename, validate_account_id,
    validate_address_list, validate_body, validate_email, validate_folder_id,
    validate_message_id, validate_pagination, validate_path, validate_search_query,
    validate_subject,
};

fn detail<T: std::fmt::Debug>(r: Result<T, DEmailError>) -> String {
    match r {
        Err(DEmailError::Validation(d)) => d,
        other => panic!("no validation error: {:?}", other),
    }
}

#[test]
fn attachments_up_to_twenty_five_mebibytes() {
    assert_eq!(MAX_ATTACHMENT_SIZE, 25 * 1024 * 1024);
    assert!(validate_attachment_safety("a.txt", 0).is_ok());
    assert!(validate_attachment_safety("a.exe", MAX_ATTACHMENT_SIZE).is_ok());
    assert!(validate_attachment_safety("a.txt", -5).is_ok());
    match validate_attachment_safety("a.txt", MAX_ATTACHMENT_SIZE + 1) {
        Err(DEmailError::Unknown(d)) => assert_eq!(
            d,
            "Attachment too large: 26214401 bytes (max: 26214400 bytes)"
        ),
        other => panic!("{:?}", other),
    }
}

#[test]
fn extensions_of_file_names() {
    assert_eq!(file_extension("a.txt"), Some("txt".to_string()));
    assert_eq!(file_extension("archive.tar.gz"), Some("gz".to_string()));
    assert_eq!(file_extension("noext"), None);
    assert_eq!(file_extension(".hidden"), None);
    assert_eq!(file_extension("trailing."), Some(String::new()));
    assert_eq!(file_extension(""), None);
    assert!(is_dangerous_extension("exe"));
    assert!(is_dangerous_extension("sh"));
    assert!(!is_dangerous_extension("EXE"));
    assert!(!is_dangerous_extension("txt"));
    assert!(has_dangerous_extension("setup.EXE"));
    assert!(has_dangerous_extension("run.Js"));
    assert!(!has_dangerous_extension("notes.txt"));
    assert!(!has_dangerous_extension("exe"));
}

#[test]
fn an_attachment_table_of_its_own() {
    let mut table = AttachmentTable::new();
    let a = Attachment {
        id: 99,
        message_id: 1,
        filename: "x".to_string(),
        mime_type: "y".to_string(),
        size_bytes: 1,
        local_path: Some("/tmp/x".to_string()),
    };
    let id = table.store_attachment(&a, b"1").unwrap();
    assert_eq!(id, 1);
    let listed = table.get_attachments_for_message(1);
    assert_eq!(listed[0].id, 1);
    assert_eq!(listed[0].local_path, Some("/tmp/x".to_string()));
    table.remove_for_message(2);
    assert_eq!(table.len(), 1);
    table.remove_for_message(1);
    assert_eq!(table.len(), 0);
    assert_eq!(table.get_attachment_data(1), None);
}

#[test]
fn the_words_of_the_validation_errors() {
    assert_eq!(detail(validate_email("")), "Email address cannot be empty");
    assert_eq!(
        detail(validate_email("nope")),
        "Invalid email address format: nope"
    );
    assert_eq!(
        detail(validate_subject(&"x".repeat(1000))),
        "Subject too long: 1000 characters (max 998)"
    );
    assert_eq!(
        detail(validate_subject("a\u{7}b")),
        "Subject contains invalid control characters"
    );
    assert!(validate_subject("tab\tis fine").is_ok());
    assert!(validate_subject("\u{85}").is_err());
    // the length is that in bytes
    assert!(validate_subject(&"\u{e9}".repeat(499)).is_ok());
    assert!(validate_subject(&"\u{e9}".repeat(500)).is_err());
    assert_eq!(
        detail(validate_body(&"b".repeat(10_000_001))),
        "Body too long: 10000001 bytes (max 10000000)"
    );
    assert!(validate_body(&"b".repeat(10_000_000)).is_ok());
    assert_eq!(
        detail(validate_address_list("")),
        "Address list cannot be empty"
    );
    assert_eq!(
        detail(validate_address_list(&format!("{}@example.com", "a".repeat(2000)))),
        "Address list too long: 2012 characters (max 2000)"
    );
    assert_eq!(
        detail(validate_address_list(" , ; ")),
        "No valid email addresses found in list"
    );
    assert_eq!(
        detail(validate_address_list("ok@example.com, broken")),
        "Invalid email address format: broken"
    );
    assert_eq!(detail(validate_message_id(0)), "Invalid message ID: 0");
    assert_eq!(detail(validate_account_id(-7)), "Invalid account ID: -7");
    assert_eq!(
        detail(validate_folder_id(i64::MIN)),
        "Invalid folder ID: -9223372036854775808"
    );
    assert!(validate_account_id(1).is_ok());
    assert!(validate_folder_id(i64::MAX).is_ok());
    assert_eq!(
        detail(validate_pagination(0, 0)),
        "Invalid limit: 0 (must be 1-1000)"
    );
    assert_eq!(
        detail(validate_pagination(1001, -1)),
        "Invalid limit: 1001 (must be 1-1000)"
    );
    assert_eq!(
        detail(validate_pagination(1, -1)),
        "Invalid offset: -1 (must be >= 0)"
    );
    assert_eq!(
        detail(validate_pagination(1, 1_000_001)),
        "Invalid offset: 1000001 (must be <= 1000000)"
    );
    assert!(validate_pagination(1, 1_000_000).is_ok());
    assert!(validate_pagination(1000, 0).is_ok());
    assert_eq!(
        detail(validate_search_query("")),
        "Search query cannot be empty"
    );
    assert_eq!(
        detail(validate_search_query(&"q".repeat(501))),
        "Search query too long: 501 characters (max 500)"
    );
    assert_eq!(
        detail(validate_search_query("a;b")),
        "Search query contains suspicious characters"
    );
    assert!(validate_search_query(&"q".repeat(500)).is_ok());
    assert!(validate_search_query("a-b / c * d").is_ok());
}

#[test]
fn file_names() {
    assert_eq!(detail(sanitize_filename("")), "Filename cannot be empty");
    assert_eq!(
        detail(sanitize_filename(&"n".repeat(256))),
        "Filename too long: 256 characters (max 255)"
    );
    assert_eq!(
        detail(sanitize_filename("a\0b")),
        "Filename contains null bytes"
    );
    assert_eq!(
        detail(sanitize_filename("a/b")),
        "Filename contains path traversal characters"
    );
    assert_eq!(
        detail(sanitize_filename("a..b")),
        "Filename contains path traversal characters"
    );
    assert_eq!(
        detail(sanitize_filename("???")),
        "Filename contains only invalid characters"
    );
    // what the sanitizer leaves can still lead out
    assert_eq!(
        detail(sanitize_filename("a.:.b")),
        "Filename contains path traversal characters"
    );
    assert_eq!(
        detail(sanitize_filename(".:.")),
        "Filename contains only invalid characters"
    );
    assert_eq!(sanitize_filename("file:name.txt").unwrap(), "filename.txt");
    assert_eq!(sanitize_filename(&"n".repeat(255)).unwrap(), "n".repeat(255));
    assert_eq!(
        filename_verdict("report.pdf", "report.pdf".to_string()).unwrap(),
        "report.pdf"
    );
    assert!(filename_verdict("report.pdf", String::new()).is_err());
    assert!(filename_verdict("report.pdf", "a\\b".to_string()).is_err());
    assert!(email_verdict("a@b.co", true).is_ok());
    assert!(email_verdict("a@b.co", false).is_err());
    assert!(email_verdict("", true).is_err());
    assert!(query_verdict("Drop", "drop").is_ok());
    assert!(query_verdict("x", "--").is_err());
    assert!(query_verdict("x", "/*").is_err());
}

#[test]
fn paths_within_a_directory() {
    assert_eq!(
        validate_path("/tmp/demail/./a/../b", "/tmp/demail/").unwrap(),
        "/tmp/demail/b"
    );
    assert_eq!(validate_path("/tmp/demail", "/tmp/demail").unwrap(), "/tmp/demail");
    assert_eq!(
        detail(validate_path("/tmp/demail/../x", "/tmp/demail")),
        "Path '/tmp/x' is outside allowed directory '/tmp/demail'"
    );
    assert!(validate_path("tmp/demail/a", "/tmp/demail").is_err());
    assert!(validate_path("/tmp/demailx", "/tmp/demail").is_err());
    assert_eq!(validate_path("a/b", "a").unwrap(), "a/b");
}

#[test]
fn folder_names_of_exports() {
    assert_eq!(message_folder_name("Hello, World!"), "Hello__World_");
    assert_eq!(message_folder_name("gr\u{fc}\u{df}e 2024"), "gr\u{fc}\u{df}e_2024");
    assert_eq!(message_folder_name(""), "");
    assert_eq!(pdf_source("<p>x</p>"), "data:text/html,<p>x</p>");
}

#[test]
fn what_comes_in_is_checked_before_the_cache_is_asked() {
    let mut store = CacheStore::new();
    let m = Message {
        id: 0,
        account_id: 1,
        folder_id: 1,
        imap_uid: 1,
        message_id_header: String::new(),
        from_header: "a@b.co".to_string(),
        to_header: "c@d.co".to_string(),
        cc_header: None,
        subject: "findme".to_string(),
        date: 1,
        body_plain: None,
        body_html: None,
        has_attachments: false,
        is_read: false,
        is_starred: false,
        thread_id: None,
        attachments: Vec::new(),
    };
    save_message(&mut store, &m).unwrap();
    assert_eq!(get_messages_paginated(&store, 1, 10, 0).unwrap().len(), 1);
    for (limit, offset) in [(0, 0), (-1, 0), (1001, 0), (10, -1), (10, 1_000_001)] {
        assert!(matches!(
            get_messages_paginated(&store, 1, limit, offset),
            Err(DEmailError::Validation(_))
        ));
    }
    assert_eq!(search_messages(&store, 1, "findme").unwrap().len(), 1);
    assert!(matches!(
        search_messages(&store, 1, "findme; --"),
        Err(DEmailError::Validation(_))
    ));
    assert!(matches!(
        search_messages(&store, 1, ""),
        Err(DEmailError::Validation(_))
    ));

    let mut draft = Draft {
        id: 0,
        account_id: 1,
        to_addresses: "x@y.z".to_string(),
        cc_addresses: None,
        bcc_addresses: None,
        subject: "bad\nsubject".to_string(),
        body_plain: None,
        body_html: None,
        created_at: 0,
        updated_at: 0,
    };
    assert!(validate_draft(&draft).is_err());
    assert!(save_draft(&mut store, &draft, 1).is_err());
    assert!(get_drafts(&store, 1).unwrap().is_empty());
    draft.subject = "good".to_string();
    assert_eq!(save_draft(&mut store, &draft, 1).unwrap(), 1);
    assert_eq!(get_drafts(&store, 1).unwrap().len(), 1);
}
