use demail::cache::{
    get_attachment_data, get_attachments_for_message, get_folders, get_message_details,
    get_thread, search_messages_fts, CacheStore,
};
use demail::mime::{Mailbox, ParsedAttachment, ParsedMail};
use mail_parser::MimeHeaders;
use demail::error::{DEmailError, ErrorKind};
use demail::messages::MessageTable;
use demail::models::Message;
use demail::protocol::{
    fetch_folders, fetch_items, list_pattern, list_reference, sasl_mechanism, search_query,
    sort_uids, uid_sequence_set, xoauth2_response, ProtocolError, SyncAction, SyncEvent,
    SyncPhase, SyncSession,
};
use demail::sync::{
    format_addresses, sync_folder, ingest_fetched, ingest_message, normalize_message,
    FetchedItem, ItemOutcome,
};

const RAW: &str = "From: Ann Example <ann@example.com>\r\n\
To: bob@example.com, \"Carl C\" <carl@example.com>\r\n\
Cc: dora@example.com\r\n\
Subject: Re: Quarterly report\r\n\
Date: Fri, 15 May 2015 00:00:00 +0000\r\n\
Message-ID: <abc@example.com>\r\n\
MIME-Version: 1.0\r\n\
Content-Type: multipart/mixed; boundary=\"XX\"\r\n\
\r\n\
--XX\r\n\
Content-Type: multipart/alternative; boundary=\"YY\"\r\n\
\r\n\
--YY\r\n\
Content-Type: text/plain; charset=utf-8\r\n\
\r\n\
The numbers are in, zanzibar99.\r\n\
--YY\r\n\
Content-Type: text/html; charset=utf-8\r\n\
\r\n\
<p>The numbers are in.</p><script>alert(1)</script>\r\n\
--YY--\r\n\
--XX\r\n\
Content-Type: text/csv; name=\"numbers.csv\"\r\n\
Content-Disposition: attachment; filename=\"numbers.csv\"\r\n\
\r\n\
a,b\r\n\
1,2\r\n\
--XX--\r\n";

fn mailboxes(value: Option<&mail_parser::Address<'_>>) -> Vec<Mailbox> {
    let mailbox = |a: &mail_parser::Addr<'_>| Mailbox {
        name: a.name.as_ref().map(|n| n.to_string()),
        address: a.address.as_ref().map(|n| n.to_string()),
    };
    match value {
        Some(mail_parser::Address::List(l)) => l.iter().map(mailbox).collect(),
        Some(mail_parser::Address::Group(l)) => l
            .iter()
            .flat_map(|g| g.addresses.iter())
            .map(mailbox)
            .collect(),
        None => Vec::new(),
    }
}

fn parse_message(raw: &[u8]) -> Option<ParsedMail> {
    let m = mail_parser::MessageParser::default().parse(raw)?;
    Some(ParsedMail {
        from: mailboxes(m.from()),
        to: mailboxes(m.to()),
        cc: mailboxes(m.cc()),
        subject: m.subject().map(|s| s.to_string()),
        date: m.date().map(|d| d.to_timestamp()),
        message_id: m.message_id().map(|s| s.to_string()),
        body_text: m.body_text(0).map(|b| b.into_owned()),
        body_html: m.body_html(0).map(|b| b.into_owned()),
        attachments: m
            .attachments()
            .map(|p| ParsedAttachment {
                name: p.attachment_name().map(|n| n.to_string()),
                mime_type: p.content_type().map(|t| t.ctype().to_string()),
                contents: p.contents().to_vec(),
            })
            .collect(),
    })
}

fn item(uid: u32, raw: &str) -> FetchedItem {
    FetchedItem {
        uid: Some(uid),
        message: parse_message(raw.as_bytes()),
    }
}

#[test]
fn a_raw_message_is_read() {
    let parsed = parse_message(RAW.as_bytes()).unwrap();
    assert_eq!(parsed.subject, Some("Re: Quarterly report".to_string()));
    assert_eq!(parsed.date, Some(1431648000));
    assert_eq!(parsed.message_id, Some("abc@example.com".to_string()));
    assert_eq!(parsed.from.len(), 1);
    assert_eq!(parsed.from[0].name, Some("Ann Example".to_string()));
    assert_eq!(parsed.from[0].address, Some("ann@example.com".to_string()));
    assert_eq!(parsed.to.len(), 2);
    assert_eq!(parsed.cc.len(), 1);
    assert!(parsed.body_text.unwrap().contains("zanzibar99"));
    assert!(parsed.body_html.unwrap().contains("<script>"));
    assert_eq!(parsed.attachments.len(), 1);
    assert_eq!(parsed.attachments[0].name, Some("numbers.csv".to_string()));
    assert_eq!(parsed.attachments[0].mime_type, Some("text".to_string()));
    assert!(parsed.attachments[0].contents.starts_with(b"a,b"));
    assert!(parse_message(b"").is_none());
}

#[test]
fn a_message_is_made_of_what_was_read() {
    let parsed = parse_message(RAW.as_bytes()).unwrap();
    let m = normalize_message(&parsed, 3, 4, 77);
    assert_eq!(m.id, 0);
    assert_eq!(m.account_id, 3);
    assert_eq!(m.folder_id, 4);
    assert_eq!(m.imap_uid, 77);
    assert_eq!(m.from_header, "Ann Example <ann@example.com>");
    assert_eq!(m.to_header, "bob@example.com, Carl C <carl@example.com>");
    assert_eq!(m.cc_header, Some("dora@example.com".to_string()));
    assert_eq!(m.subject, "Re: Quarterly report");
    assert_eq!(m.date, 1431648000);
    assert_eq!(m.message_id_header, "abc@example.com");
    assert!(m.has_attachments);
    assert!(!m.is_read);
    assert!(!m.is_starred);
    assert_eq!(m.thread_id, None);

    let bare = parse_message(b"X-Thing: 1\r\n\r\nhello\r\n").unwrap();
    let m = normalize_message(&bare, 1, 1, 1);
    assert_eq!(m.from_header, "");
    assert_eq!(m.to_header, "");
    assert_eq!(m.cc_header, None);
    assert_eq!(m.subject, "");
    assert_eq!(m.date, 0);
    assert_eq!(m.message_id_header, "");
    assert!(!m.has_attachments);
}

#[test]
fn addresses_as_a_header_shows_them() {
    let list = vec![
        Mailbox {
            name: Some("A".to_string()),
            address: Some("a@x".to_string()),
        },
        Mailbox {
            name: None,
            address: Some("b@x".to_string()),
        },
        Mailbox {
            name: Some("Only Name".to_string()),
            address: None,
        },
        Mailbox {
            name: None,
            address: None,
        },
    ];
    assert_eq!(format_addresses(&list), "A <a@x>, b@x, Only Name, ");
    assert_eq!(format_addresses(&Vec::new()), "");
}

#[test]
fn a_fetched_message_is_taken_in() {
    let mut store = CacheStore::new();
    let outcome = ingest_fetched(&mut store, 1, 2, &item(5, RAW), 1000);
    let id = match outcome {
        ItemOutcome::Saved(id) => id,
        other => panic!("not saved: {:?}", other),
    };
    let m = get_message_details(&store, id).unwrap();
    assert_eq!(m.subject, "Re: Quarterly report");
    assert_eq!(m.imap_uid, 5);
    assert_eq!(m.folder_id, 2);
    // the HTML body is sanitized
    assert_eq!(m.body_html.unwrap().trim(), "<p>The numbers are in.</p>");
    // the message has its thread
    let thread = get_thread(&store, m.thread_id.unwrap()).unwrap();
    assert_eq!(thread.message_count, 1);
    assert_eq!(thread.first_message_id, id);
    // its attachment came with its content
    assert_eq!(m.attachments.len(), 1);
    assert_eq!(m.attachments[0].filename, "numbers.csv");
    assert_eq!(m.attachments[0].mime_type, "text");
    assert_eq!(m.attachments[0].message_id, id);
    let data = get_attachment_data(&store, m.attachments[0].id).unwrap().unwrap();
    assert_eq!(m.attachments[0].size_bytes, data.len() as i64);
    // the addresses are in the book
    assert_eq!(store.contacts().len(), 4);
    assert_eq!(
        store.contacts().lookup("carl@example.com").unwrap().name,
        Some("Carl C".to_string())
    );
    assert_eq!(store.contacts().lookup("ann@example.com").unwrap().last_used, 1000);
    // and the text index finds it
    assert_eq!(search_messages_fts(&store, 1, "zanzibar99").unwrap().len(), 1);
}

#[test]
fn taking_a_mailbox_in_again_makes_no_duplicate() {
    let mut store = CacheStore::new();
    let other = RAW.replace("Re: Quarterly report", "Something else");
    let items = vec![item(1, RAW), item(2, &other)];
    let first = sync_folder(&mut store, 1, 1, &items, 10);
    let second = sync_folder(&mut store, 1, 1, &items, 20);
    assert_eq!(first.len(), 2);
    let ids = |v: &Vec<ItemOutcome>| -> Vec<i64> {
        v.iter()
            .map(|o| match o {
                ItemOutcome::Saved(id) => *id,
                _ => -1,
            })
            .collect()
    };
    assert_eq!(ids(&first), vec![1, 2]);
    assert_eq!(ids(&first), ids(&second));
    assert_eq!(store.messages().len(), 2);
    assert_eq!(store.attachments().len(), 2);
    assert_eq!(store.threads().len(), 2);
    let m = get_message_details(&store, 1).unwrap();
    assert_eq!(get_thread(&store, m.thread_id.unwrap()).unwrap().message_count, 1);
    assert_eq!(get_attachments_for_message(&store, 1).unwrap().len(), 1);
    assert_eq!(store.contacts().lookup("ann@example.com").unwrap().use_count, 4);
}

#[test]
fn what_cannot_be_read_is_skipped() {
    let mut store = CacheStore::new();
    let items = vec![
        FetchedItem {
            uid: Some(1),
            message: None,
        },
        FetchedItem {
            uid: Some(2),
            message: parse_message(b""),
        },
        item(3, RAW),
        FetchedItem {
            uid: None,
            message: parse_message(b"Subject: no uid\r\n\r\nx"),
        },
    ];
    let outcomes = sync_folder(&mut store, 1, 1, &items, 10);
    assert!(matches!(outcomes[0], ItemOutcome::Skipped));
    assert!(matches!(outcomes[1], ItemOutcome::Skipped));
    assert!(matches!(outcomes[2], ItemOutcome::Saved(1)));
    assert!(matches!(outcomes[3], ItemOutcome::Saved(2)));
    assert_eq!(store.messages().len(), 2);
    assert_eq!(get_message_details(&store, 2).unwrap().imap_uid, 0);
    assert!(sync_folder(&mut store, 1, 1, &Vec::new(), 10).is_empty());
}

#[test]
fn a_reply_joins_the_thread_of_its_subject() {
    let mut store = CacheStore::new();
    let first = parse_message(RAW.replace("Re: Quarterly", "Quarterly").as_bytes()).unwrap();
    let reply = parse_message(RAW.as_bytes()).unwrap();
    let a = ingest_message(&mut store, 1, 1, 1, &first, 10).unwrap();
    let b = ingest_message(&mut store, 1, 1, 2, &reply, 20).unwrap();
    let c = ingest_message(&mut store, 2, 1, 1, &reply, 30).unwrap();
    let thread_of = |id: i64| get_message_details(&store, id).unwrap().thread_id.unwrap();
    assert_eq!(thread_of(a), thread_of(b));
    assert_ne!(thread_of(a), thread_of(c));
    let thread = get_thread(&store, thread_of(a)).unwrap();
    assert_eq!(thread.message_count, 2);
    assert_eq!(thread.last_message_id, b);
    assert_eq!(thread.updated_at, 20);
}

#[test]
fn uids_as_a_fetch_names_them() {
    assert_eq!(uid_sequence_set(&vec![]), None);
    assert_eq!(uid_sequence_set(&vec![7]), Some("7".to_string()));
    assert_eq!(
        uid_sequence_set(&vec![1, 20, 4294967295, 0]),
        Some("1,20,4294967295,0".to_string())
    );
}

#[test]
fn mailboxes_become_folders_once() {
    let mut store = CacheStore::new();
    let names = vec!["INBOX".to_string(), "Sent".to_string(), "INBOX".to_string()];
    let folders = fetch_folders(&mut store, 1, &names);
    let ids: Vec<i64> = folders.iter().map(|f| f.id).collect();
    assert_eq!(ids, vec![1, 2, 1]);
    assert_eq!(folders[1].name, "Sent");
    assert_eq!(folders[1].path, "Sent");
    assert_eq!(folders[1].parent_id, None);
    assert_eq!(get_folders(&store, 1).unwrap().len(), 2);
    let again = fetch_folders(&mut store, 1, &names);
    assert_eq!(again.iter().map(|f| f.id).collect::<Vec<i64>>(), vec![1, 2, 1]);
    assert_eq!(get_folders(&store, 1).unwrap().len(), 2);
    fetch_folders(&mut store, 2, &names);
    assert_eq!(get_folders(&store, 2).unwrap().len(), 2);
}

#[test]
fn a_session_runs_through_its_folders() {
    let mut s = SyncSession::new();
    assert_eq!(s.phase, SyncPhase::Disconnected);
    assert_eq!(s.step(SyncEvent::Connected), SyncAction::ListFolders);
    assert_eq!(s.phase, SyncPhase::Connected);
    assert_eq!(s.step(SyncEvent::FoldersListed(3)), SyncAction::SelectFolder(0));
    assert_eq!(s.phase, SyncPhase::FolderListed);
    assert_eq!(s.step(SyncEvent::FolderSelected), SyncAction::SearchAll);
    assert_eq!(s.phase, SyncPhase::FolderSelected);
    // an empty folder is no error and is not fetched
    assert_eq!(s.step(SyncEvent::UidsFound(0)), SyncAction::SelectFolder(1));
    assert_eq!(s.step(SyncEvent::FolderSelected), SyncAction::SearchAll);
    // a failure ends the folder, not the session
    assert_eq!(s.step(SyncEvent::CommandFailed), SyncAction::SelectFolder(2));
    assert_eq!(s.failed, 1);
    assert_eq!(s.step(SyncEvent::FolderSelected), SyncAction::SearchAll);
    assert_eq!(s.step(SyncEvent::UidsFound(12)), SyncAction::FetchAll);
    assert_eq!(s.phase, SyncPhase::FolderSelected);
    assert_eq!(s.step(SyncEvent::MessagesFetched), SyncAction::Logout);
    assert_eq!(s.phase, SyncPhase::MessagesFetched);
    assert_eq!(s.step(SyncEvent::LoggedOut), SyncAction::Finish);
    assert_eq!(s.phase, SyncPhase::LoggedOut);
    assert_eq!(s.current, 3);
    assert_eq!(s.failed, 1);
    assert_eq!(s.step(SyncEvent::Connected), SyncAction::Finish);
}

#[test]
fn a_session_ends_where_it_cannot_go_on() {
    let mut s = SyncSession::new();
    assert_eq!(
        s.step(SyncEvent::LoginRejected),
        SyncAction::Abort(ProtocolError::AuthRejected)
    );
    assert_eq!(s.phase, SyncPhase::LoggedOut);

    let mut s = SyncSession::new();
    assert_eq!(
        s.step(SyncEvent::ConnectFailed),
        SyncAction::Abort(ProtocolError::ConnectFailed)
    );

    let mut s = SyncSession::new();
    assert_eq!(
        s.step(SyncEvent::FolderSelected),
        SyncAction::Abort(ProtocolError::MalformedResponse)
    );

    let mut s = SyncSession::new();
    s.step(SyncEvent::Connected);
    assert_eq!(s.step(SyncEvent::FoldersListed(0)), SyncAction::Logout);
    assert_eq!(s.step(SyncEvent::LoggedOut), SyncAction::Finish);

    let mut s = SyncSession::new();
    s.step(SyncEvent::Connected);
    assert_eq!(
        s.step(SyncEvent::CommandFailed),
        SyncAction::Abort(ProtocolError::MalformedResponse)
    );
}

#[test]
fn nested_alternatives_are_read() {
    let raw = "From: a@example.com\r\n\
Subject: nested\r\n\
MIME-Version: 1.0\r\n\
Content-Type: multipart/alternative; boundary=\"OUT\"\r\n\
\r\n\
--OUT\r\n\
Content-Type: text/html\r\n\
\r\n\
<p>one</p>\r\n\
--OUT\r\n\
Content-Type: text/html\r\n\
\r\n\
<p>two</p>\r\n\
--OUT\r\n\
Content-Type: multipart/alternative; boundary=\"IN\"\r\n\
\r\n\
--IN\r\n\
Content-Type: text/plain\r\n\
\r\n\
three\r\n\
--IN--\r\n\
--OUT--\r\n";
    let parsed = parse_message(raw.as_bytes()).unwrap();
    assert_eq!(parsed.subject, Some("nested".to_string()));
    assert!(parsed.body_html.is_some());
    assert!(parsed.body_text.is_some());

    let mut store = CacheStore::new();
    let outcomes = sync_folder(&mut store, 1, 1, &vec![item(1, raw)], 1);
    assert!(matches!(outcomes[0], ItemOutcome::Saved(1)));
}

#[test]
fn a_message_without_an_identifier_fails_alone() {
    let last = Message {
        id: i64::MAX - 1,
        account_id: 1,
        folder_id: 1,
        imap_uid: 1,
        message_id_header: String::new(),
        from_header: String::new(),
        to_header: String::new(),
        cc_header: None,
        subject: "Re: Quarterly report".to_string(),
        date: 0,
        body_plain: None,
        body_html: None,
        has_attachments: false,
        is_read: false,
        is_starred: false,
        thread_id: None,
        attachments: Vec::new(),
    };
    let empty = CacheStore::new();
    let snapshot = demail::cache::CacheSnapshot {
        accounts: Vec::new(),
        folders: Vec::new(),
        messages: MessageTable::restore(vec![last]).unwrap().rows().clone(),
        attachments: Vec::new(),
        blobs: Vec::new(),
        drafts: Vec::new(),
        signatures: Vec::new(),
        settings: Vec::new(),
        threads: Vec::new(),
        contacts: Vec::new(),
        schema_items: empty.schema().items().clone(),
        migrations: Vec::new(),
    };
    let mut store = CacheStore::restore(snapshot).unwrap();
    let outcomes = sync_folder(&mut store, 1, 1, &vec![item(2, RAW), item(1, RAW)], 9);
    match &outcomes[0] {
        ItemOutcome::Failed(e) => {
            assert_eq!(e.kind(), ErrorKind::Database);
            assert!(matches!(e, DEmailError::Database(_)));
            assert_eq!(e.message(), "Database error: no message identifier is left");
        }
        other => panic!("{:?}", other),
    }
    // the message that the cache knows is saved all the same
    assert!(matches!(outcomes[1], ItemOutcome::Saved(id) if id == i64::MAX - 1));
    assert_eq!(store.messages().len(), 1);
}

#[test]
fn what_is_said_to_the_server() {
    assert_eq!(sasl_mechanism(), "XOAUTH2");
    assert_eq!(
        xoauth2_response("me@gmail.com", "tok"),
        "user=me@gmail.com\x01auth=Bearer tok\x01\x01"
    );
    assert_eq!(xoauth2_response("", ""), "user=\x01auth=Bearer \x01\x01");
    assert_eq!(list_reference(), "");
    assert_eq!(list_pattern(), "*");
    assert_eq!(search_query(), "ALL");
    assert_eq!(fetch_items(), "(RFC822)");
}

#[test]
fn uids_are_fetched_in_rising_order() {
    assert_eq!(sort_uids(&vec![]), Vec::<u32>::new());
    assert_eq!(sort_uids(&vec![5]), vec![5]);
    assert_eq!(
        sort_uids(&vec![7, 3, 4294967295, 0, 3, 12]),
        vec![0, 3, 3, 7, 12, 4294967295]
    );
    assert_eq!(
        uid_sequence_set(&sort_uids(&vec![9, 1, 5])),
        Some("1,5,9".to_string())
    );
}
