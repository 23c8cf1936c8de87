use demail::error::DEmailError;
use demail::validation::{
    sanitize_filename, validate_account_id, validate_address_list, validate_body, validate_email,
    validate_folder_id, validate_message_id, validate_pagination, validate_path,
    validate_search_query, validate_subject,
};

#[test]
fn test_validate_email() {
    assert!(validate_email("user@example.com").is_ok());
    assert!(validate_email("test.email+filter@domain.co.uk").is_ok());
    assert!(validate_email("").is_err());
    assert!(validate_email("not-an-email").is_err());
    assert!(validate_email("@example.com").is_err());
}

#[test]
fn test_validate_subject() {
    assert!(validate_subject("Normal subject").is_ok());
    assert!(validate_subject("").is_ok());
    assert!(validate_subject(&"A".repeat(998)).is_ok());
    assert!(validate_subject(&"A".repeat(999)).is_err());
    assert!(validate_subject("Subject\nwith\nnewlines").is_err());
}

#[test]
fn test_validate_body() {
    assert!(validate_body("Normal email body").is_ok());
    assert!(validate_body(&"A".repeat(1_000_000)).is_ok());
    assert!(validate_body(&"A".repeat(10_000_001)).is_err());
}

#[test]
fn test_validate_address_list() {
    assert!(validate_address_list("user@example.com").is_ok());
    assert!(validate_address_list("user1@example.com, user2@example.com").is_ok());
    assert!(validate_address_list("user1@example.com; user2@example.com").is_ok());
    assert!(validate_address_list("").is_err());
    assert!(validate_address_list("invalid, also-invalid").is_err());
}

#[test]
fn test_sanitize_filename() {
    assert_eq!(sanitize_filename("normal.txt").unwrap(), "normal.txt");
    assert_eq!(
        sanitize_filename("file with spaces.pdf").unwrap(),
        "file with spaces.pdf"
    );
    assert!(sanitize_filename("../../../etc/passwd").is_err());
    assert!(sanitize_filename("").is_err());
    assert!(sanitize_filename(&"A".repeat(300)).is_err());
}

#[test]
fn test_validate_message_id() {
    assert!(validate_message_id(1).is_ok());
    assert!(validate_message_id(9999).is_ok());
    assert!(validate_message_id(0).is_err());
    assert!(validate_message_id(-1).is_err());
}

#[test]
fn test_validate_pagination() {
    assert!(validate_pagination(25, 0).is_ok());
    assert!(validate_pagination(100, 50).is_ok());
    assert!(validate_pagination(0, 0).is_err());
    assert!(validate_pagination(1001, 0).is_err());
    assert!(validate_pagination(50, -1).is_err());
}

#[test]
fn test_validate_search_query() {
    assert!(validate_search_query("normal search").is_ok());
    assert!(validate_search_query("email@example.com").is_ok());
    assert!(validate_search_query("").is_err());
    assert!(validate_search_query(&"A".repeat(501)).is_err());
    assert!(validate_search_query("DROP TABLE--").is_err());
    assert!(validate_search_query("/* comment */").is_err());
}

#[test]
fn test_email_validation_edge_cases() {
    assert!(validate_email("a@b.co").is_ok());
    assert!(validate_email("test+tag@example.com").is_ok());
    assert!(validate_email("user.name@example.co.uk").is_ok());

    assert!(validate_email("@example.com").is_err());
    assert!(validate_email("user@").is_err());
    assert!(validate_email("user@@example.com").is_err());
    assert!(validate_email("user @example.com").is_err());
}

#[test]
fn test_subject_validation_special_chars() {
    assert!(validate_subject("Re: Meeting @ 3pm").is_ok());
    assert!(validate_subject("[URGENT] Project Update #42").is_ok());
    assert!(validate_subject("Question: What's next?").is_ok());

    assert!(validate_subject("ÐŸÑ€Ð¸Ð²ÐµÑ‚ Ð¼Ð¸Ñ€").is_ok());
    assert!(validate_subject("ä½ å¥½ä¸–ç•Œ").is_ok());
    assert!(validate_subject("ðŸŽ‰ Celebration").is_ok());
}

#[test]
fn test_filename_sanitization_comprehensive() {
    assert!(sanitize_filename("../../etc/passwd").is_err());
    assert!(sanitize_filename("..\\..\\windows\\system32").is_err());
    assert!(sanitize_filename("./secret.txt").is_err());

    assert!(sanitize_filename("file\0.txt").is_err());

    assert_eq!(sanitize_filename("report.pdf").unwrap(), "report.pdf");
    assert_eq!(sanitize_filename("my-file_2024.docx").unwrap(), "my-file_2024.docx");

    let result = sanitize_filename("file:name.txt");
    assert!(result.is_ok());
    assert!(!result.unwrap().contains(':'));
}

#[test]
fn test_path_validation_comprehensive() {
    let base = "/tmp/demail";

    assert!(validate_path(&format!("{}/{}", base, "attachments"), base).is_ok());
    assert!(validate_path(&format!("{}/{}", base, "exports/user1"), base).is_ok());

    assert!(validate_path("/tmp", base).is_err());
    assert!(validate_path("/etc/passwd", base).is_err());
    assert!(validate_path(&format!("{}/{}", base, "../../../etc/passwd"), base).is_err());
}

#[test]
fn test_pagination_validation_comprehensive() {
    assert!(validate_pagination(10, 0).is_ok());
    assert!(validate_pagination(100, 50).is_ok());
    assert!(validate_pagination(1, 999).is_ok());

    assert!(validate_pagination(0, 0).is_err());
    assert!(validate_pagination(-1, 0).is_err());
    assert!(validate_pagination(1001, 0).is_err());

    assert!(validate_pagination(10, -1).is_err());
    assert!(validate_pagination(10, 1_000_001).is_err());
}

#[test]
fn test_search_query_validation_comprehensive() {
    assert!(validate_search_query("meeting").is_ok());
    assert!(validate_search_query("project update 2024").is_ok());
    assert!(validate_search_query("a").is_ok());

    assert!(validate_search_query("").is_err());

    let long_query = "word ".repeat(101);
    assert!(validate_search_query(&long_query).is_err());

    assert!(validate_search_query("Ð¿Ð¾Ð¸ÑÐº").is_ok());
    assert!(validate_search_query("æœç´¢").is_ok());
}

#[test]
fn test_validation_error_messages() {
    match validate_email("invalid") {
        Err(DEmailError::Validation(msg)) => {
            assert!(msg.contains("email") || msg.contains("invalid"));
        }
        _ => panic!("Expected validation error"),
    }

    match validate_subject(&"x".repeat(1000)) {
        Err(DEmailError::Validation(msg)) => {
            assert!(msg.contains("subject") || msg.contains("long"));
        }
        _ => panic!("Expected validation error"),
    }
}

#[test]
fn test_xss_protection_in_body() {
    let script_body = "<script>alert('xss')</script>";
    assert!(validate_body(script_body).is_ok());

    let html_body = "<html><body>Content</body></html>";
    assert!(validate_body(html_body).is_ok());
}
