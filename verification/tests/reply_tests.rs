use demail::api::{prepare_forward as forward_by_id, prepare_reply as reply_by_id};
use demail::cache::{save_message, CacheStore};
use demail::models::Message;
use demail::reply_forward::{
    compose_forward, compose_reply, format_forward_message, prepare_forward, prepare_reply,
    quote_original_message,
};

fn message() -> Message {
    Message {
        id: 4,
        account_id: 1,
        folder_id: 1,
        imap_uid: 9,
        message_id_header: "<m@example.com>".to_string(),
        from_header: "Ann <ann@example.com>".to_string(),
        to_header: "bob@example.com".to_string(),
        cc_header: Some("carl@example.com".to_string()),
        subject: "Lunch".to_string(),
        date: 1431648000,
        body_plain: Some("Shall we?\r\nAt noon.\n".to_string()),
        body_html: Some("<p>Shall we?</p>".to_string()),
        has_attachments: false,
        is_read: true,
        is_starred: false,
        thread_id: None,
        attachments: Vec::new(),
    }
}

#[test]
fn a_reply_quotes_the_message() {
    let reply = prepare_reply(&message(), false).unwrap();
    assert_eq!(reply.to, "Ann <ann@example.com>");
    assert_eq!(reply.cc, None);
    assert_eq!(reply.subject, "Re: Lunch");
    assert_eq!(
        reply.quoted_body,
        "\n\nOn 2015-05-15 00:00:00, Ann <ann@example.com> wrote:\n> Shall we?\n> At noon."
    );
}

#[test]
fn a_reply_to_all_copies_the_others() {
    let reply = prepare_reply(&message(), true).unwrap();
    assert_eq!(reply.cc, Some("bob@example.com, carl@example.com".to_string()));

    let mut m = message();
    m.cc_header = None;
    assert_eq!(
        prepare_reply(&m, true).unwrap().cc,
        Some("bob@example.com".to_string())
    );
    m.cc_header = Some(String::new());
    m.to_header = String::new();
    assert_eq!(prepare_reply(&m, true).unwrap().cc, None);
    m.cc_header = Some("carl@example.com".to_string());
    assert_eq!(
        prepare_reply(&m, true).unwrap().cc,
        Some("carl@example.com".to_string())
    );
}

#[test]
fn a_subject_gets_its_prefix_once() {
    let mut m = message();
    m.subject = "Re: Lunch".to_string();
    assert_eq!(prepare_reply(&m, false).unwrap().subject, "Re: Lunch");
    assert_eq!(prepare_forward(&m).unwrap().subject, "Fwd: Re: Lunch");
    m.subject = "re: Lunch".to_string();
    assert_eq!(prepare_reply(&m, false).unwrap().subject, "Re: re: Lunch");
    m.subject = "Fwd: Lunch".to_string();
    assert_eq!(prepare_forward(&m).unwrap().subject, "Fwd: Lunch");
    m.subject = String::new();
    assert_eq!(prepare_reply(&m, false).unwrap().subject, "Re: ");
}

#[test]
fn the_html_body_is_quoted_where_there_is_no_plain_one() {
    let mut m = message();
    m.body_plain = None;
    assert!(prepare_reply(&m, false)
        .unwrap()
        .quoted_body
        .ends_with("wrote:\n> <p>Shall we?</p>"));
    m.body_html = None;
    assert!(prepare_reply(&m, false)
        .unwrap()
        .quoted_body
        .ends_with("wrote:\n"));
}

#[test]
fn a_forward_carries_a_header() {
    let forward = prepare_forward(&message()).unwrap();
    assert_eq!(forward.subject, "Fwd: Lunch");
    assert_eq!(
        forward.body_with_header,
        "\n\n---------- Forwarded message ----------\nFrom: Ann <ann@example.com>\nDate: 2015-05-15 00:00:00\nSubject: Lunch\nTo: bob@example.com\nCc: carl@example.com\n\nShall we?\r\nAt noon.\n"
    );
    let mut m = message();
    m.cc_header = None;
    assert!(!prepare_forward(&m).unwrap().body_with_header.contains("Cc:"));
}

#[test]
fn a_date_out_of_range_is_unknown() {
    let mut m = message();
    m.date = i64::MAX;
    assert!(prepare_reply(&m, false)
        .unwrap()
        .quoted_body
        .starts_with("\n\nOn Unknown date, Ann"));
    assert!(prepare_forward(&m)
        .unwrap()
        .body_with_header
        .contains("\nDate: Unknown date\n"));
    m.date = 0;
    assert!(prepare_reply(&m, false)
        .unwrap()
        .quoted_body
        .starts_with("\n\nOn 1970-01-01 00:00:00, "));
    m.date = -1;
    assert!(prepare_reply(&m, false)
        .unwrap()
        .quoted_body
        .starts_with("\n\nOn 1969-12-31 23:59:59, "));
}

#[test]
fn composing_with_a_given_date() {
    let date = Some("yesterday".to_string());
    assert_eq!(
        quote_original_message("x@y", &date, "a\nb"),
        "\n\nOn yesterday, x@y wrote:\n> a\n> b"
    );
    assert_eq!(
        quote_original_message("x@y", &None, ""),
        "\n\nOn Unknown date, x@y wrote:\n"
    );
    assert_eq!(
        format_forward_message("f", "t", "", &date, "s", "b"),
        "\n\n---------- Forwarded message ----------\nFrom: f\nDate: yesterday\nSubject: s\nTo: t\n\nb"
    );
    assert_eq!(compose_reply(&message(), false, &date).subject, "Re: Lunch");
    assert!(compose_forward(&message(), &date)
        .body_with_header
        .contains("Date: yesterday"));
}

#[test]
fn replies_by_identifier() {
    let mut store = CacheStore::new();
    let id = save_message(&mut store, &message()).unwrap();
    assert_eq!(reply_by_id(&store, id, false).unwrap().subject, "Re: Lunch");
    assert_eq!(forward_by_id(&store, id).unwrap().subject, "Fwd: Lunch");
    assert!(reply_by_id(&store, id + 1, false).is_err());
    assert!(forward_by_id(&store, id + 1).is_err());
}
