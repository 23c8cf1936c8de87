use demail::cache::{
    bulk_delete_messages, bulk_mark_read, bulk_mark_unread, bulk_star_messages,
    bulk_unstar_messages, count_messages_in_folder, create_account, create_or_update_thread,
    delete_account, delete_draft, delete_message, delete_signature, get_account, get_accounts,
    get_all_settings, get_attachment_data, get_attachments_for_message, get_drafts, get_folders,
    get_message_details, get_messages, get_messages_paginated, get_setting, get_signatures,
    get_starred_messages, get_thread, get_thread_messages, initialize_database, move_message,
    save_attachment, save_attachment_data, save_draft, save_folder, save_message, save_setting,
    save_signature, search_messages_fts, star_message, store_attachment, unstar_message,
    update_message_read_status, CacheStore,
};
use demail::error::DEmailError;
use demail::migrations::{get_current_version, SchemaItem};
use demail::models::{Attachment, Draft, EmailSignature, Folder, Message};

fn message(account_id: i64, folder_id: i64, uid: u32, subject: &str, date: i64) -> Message {
    Message {
        id: 0,
        account_id,
        folder_id,
        imap_uid: uid,
        message_id_header: format!("<{}@example.com>", uid),
        from_header: "Sender <sender@example.com>".to_string(),
        to_header: "rcpt@example.com".to_string(),
        cc_header: None,
        subject: subject.to_string(),
        date,
        body_plain: Some(format!("body of {}", subject)),
        body_html: None,
        has_attachments: false,
        is_read: false,
        is_starred: false,
        thread_id: None,
        attachments: Vec::new(),
    }
}

fn draft(account_id: i64, subject: &str) -> Draft {
    Draft {
        id: 0,
        account_id,
        to_addresses: "test@example.com".to_string(),
        cc_addresses: None,
        bcc_addresses: None,
        subject: subject.to_string(),
        body_plain: None,
        body_html: None,
        created_at: 0,
        updated_at: 0,
    }
}

fn signature(account_id: i64, name: &str, is_default: bool) -> EmailSignature {
    EmailSignature {
        id: 0,
        account_id,
        name: name.to_string(),
        content_html: "<p>Regards</p>".to_string(),
        content_plain: "Regards".to_string(),
        is_default,
    }
}

fn attachment(message_id: i64, name: &str) -> Attachment {
    Attachment {
        id: 0,
        message_id,
        filename: name.to_string(),
        mime_type: "text/plain".to_string(),
        size_bytes: 3,
        local_path: None,
    }
}

#[test]
fn test_database_creation() {
    let mut store = CacheStore::new();
    initialize_database(&mut store, 1).unwrap();
    assert!(store.schema().has(SchemaItem::AccountsTable));

    let count = get_accounts(&store).unwrap().len();
    assert_eq!(count, 0);
}

#[test]
fn test_account_insertion() {
    let mut store = CacheStore::new();

    create_account(&mut store, "test@example.com", "Test User", "google").unwrap();

    let email = get_account(&store, 1).unwrap().email_address;

    assert_eq!(email, "test@example.com");
}

#[test]
fn test_draft_operations() {
    let mut store = CacheStore::new();

    let now = 1234567890i64;
    save_draft(&mut store, &draft(1, "Test Subject"), now).unwrap();

    let count = get_drafts(&store, 1).unwrap().len();
    assert_eq!(count, 1);
}

#[test]
fn test_signature_operations() {
    let mut store = CacheStore::new();

    save_signature(&mut store, &signature(1, "Professional", true)).unwrap();

    let name = get_signatures(&store, 1)
        .unwrap()
        .into_iter()
        .find(|s| s.is_default)
        .unwrap()
        .name;

    assert_eq!(name, "Professional");
}

#[test]
fn test_fts5_virtual_table() {
    let store = CacheStore::new();

    let count = search_messages_fts(&store, 1, "anything").unwrap().len();

    assert_eq!(count, 0);
}

#[test]
fn test_pagination_query() {
    let mut store = CacheStore::new();

    for i in 1..=100 {
        save_message(
            &mut store,
            &message(1, 1, i as u32, &format!("Message {}", i), i as i64),
        )
        .unwrap();
    }

    let count = get_messages_paginated(&store, 1, 50, 0).unwrap().len() as i64;
    assert!(count <= 50);
    assert_eq!(count, 50);
}

#[test]
fn pages_show_the_newest_first() {
    let mut store = CacheStore::new();
    for i in 1..=10 {
        save_message(&mut store, &message(1, 1, i as u32, &format!("M{}", i), i as i64)).unwrap();
    }
    save_message(&mut store, &message(1, 2, 1, "elsewhere", 99)).unwrap();
    let page = get_messages_paginated(&store, 1, 3, 2).unwrap();
    let dates: Vec<i64> = page.iter().map(|h| h.date).collect();
    assert_eq!(dates, vec![8, 7, 6]);
    assert_eq!(page[0].subject, "M8");
    assert_eq!(page[0].from, "Sender <sender@example.com>");
    assert_eq!(get_messages_paginated(&store, 1, 5, 8).unwrap().len(), 2);
    assert_eq!(get_messages_paginated(&store, 1, 5, 10).unwrap().len(), 0);
    assert_eq!(get_messages_paginated(&store, 1, -1, 0).unwrap().len(), 10);
    assert_eq!(get_messages(&store, 1).unwrap().len(), 10);
    assert_eq!(count_messages_in_folder(&store, 1).unwrap(), 10);
    assert_eq!(count_messages_in_folder(&store, 2).unwrap(), 1);
    assert_eq!(count_messages_in_folder(&store, 3).unwrap(), 0);
}

#[test]
fn messages_of_one_date_come_in_the_order_of_the_table() {
    let mut store = CacheStore::new();
    let a = save_message(&mut store, &message(1, 1, 1, "a", 5)).unwrap();
    let b = save_message(&mut store, &message(1, 1, 2, "b", 5)).unwrap();
    let c = save_message(&mut store, &message(1, 1, 3, "c", 9)).unwrap();
    let ids: Vec<i64> = get_messages(&store, 1).unwrap().iter().map(|h| h.id).collect();
    assert_eq!(ids, vec![c, a, b]);
}

#[test]
fn synchronizing_again_makes_no_duplicate() {
    let mut store = CacheStore::new();
    let batch: Vec<Message> = (1..=5)
        .map(|i| message(1, 1, i, &format!("M{}", i), i as i64))
        .collect();
    let first: Vec<i64> = batch
        .iter()
        .map(|m| save_message(&mut store, m).unwrap())
        .collect();
    assert_eq!(store.messages().len(), 5);
    let second: Vec<i64> = batch
        .iter()
        .map(|m| save_message(&mut store, m).unwrap())
        .collect();
    assert_eq!(store.messages().len(), 5);
    assert_eq!(first, second);
    assert_eq!(first, vec![1, 2, 3, 4, 5]);

    // the same UID in another folder or account is another message
    save_message(&mut store, &message(1, 2, 1, "other folder", 1)).unwrap();
    save_message(&mut store, &message(2, 1, 1, "other account", 1)).unwrap();
    assert_eq!(store.messages().len(), 7);
}

#[test]
fn saving_replaces_the_row_and_sanitizes_the_html() {
    let mut store = CacheStore::new();
    let mut m = message(1, 1, 7, "first", 1);
    m.body_html = Some("<p>Hi</p><script>alert('xss')</script>".to_string());
    m.is_starred = true;
    m.thread_id = Some(5);
    let id = save_message(&mut store, &m).unwrap();
    let stored = get_message_details(&store, id).unwrap();
    assert_eq!(stored.body_html, Some("<p>Hi</p>".to_string()));
    assert_eq!(stored.body_plain, Some("body of first".to_string()));
    assert!(!stored.is_starred);
    assert_eq!(stored.thread_id, None);
    assert_eq!(stored.id, id);

    let mut again = message(1, 1, 7, "second", 2);
    again.is_read = true;
    assert_eq!(save_message(&mut store, &again).unwrap(), id);
    let stored = get_message_details(&store, id).unwrap();
    assert_eq!(stored.subject, "second");
    assert_eq!(stored.date, 2);
    assert!(stored.is_read);
    assert_eq!(stored.body_html, None);
}

#[test]
fn a_token_is_found_until_its_message_is_deleted() {
    let mut store = CacheStore::new();
    let mut m = message(1, 1, 1, "Quarterly numbers", 10);
    m.body_plain = Some("the secret word is xylophone42, keep it".to_string());
    let id = save_message(&mut store, &m).unwrap();
    save_message(&mut store, &message(1, 1, 2, "Other", 11)).unwrap();

    let found = search_messages_fts(&store, 1, "xylophone42").unwrap();
    assert_eq!(found.len(), 1);
    assert_eq!(found[0].id, id);
    assert_eq!(found[0].subject, "Quarterly numbers");
    // whatever the case of the letters
    assert_eq!(search_messages_fts(&store, 1, "XYLOPHONE42").unwrap().len(), 1);
    // in the subject, the sender and the recipients too
    assert_eq!(search_messages_fts(&store, 1, "quarterly").unwrap().len(), 1);
    assert_eq!(search_messages_fts(&store, 1, "sender@example.com").unwrap().len(), 2);
    assert_eq!(search_messages_fts(&store, 1, "rcpt@").unwrap().len(), 2);
    // not for another account
    assert!(search_messages_fts(&store, 2, "xylophone42").unwrap().is_empty());

    delete_message(&mut store, id).unwrap();
    assert!(search_messages_fts(&store, 1, "xylophone42").unwrap().is_empty());
    assert_eq!(store.messages().len(), 1);
}

#[test]
fn the_index_follows_an_update() {
    let mut store = CacheStore::new();
    let mut m = message(1, 1, 1, "s", 1);
    m.body_plain = Some("before".to_string());
    save_message(&mut store, &m).unwrap();
    m.body_plain = Some("after".to_string());
    save_message(&mut store, &m).unwrap();
    assert!(search_messages_fts(&store, 1, "before").unwrap().is_empty());
    assert_eq!(search_messages_fts(&store, 1, "after").unwrap().len(), 1);
}

#[test]
fn flags_and_stars() {
    let mut store = CacheStore::new();
    let a = save_message(&mut store, &message(1, 1, 1, "a", 1)).unwrap();
    let b = save_message(&mut store, &message(1, 1, 2, "b", 2)).unwrap();
    let c = save_message(&mut store, &message(1, 1, 3, "c", 3)).unwrap();

    update_message_read_status(&mut store, a, true).unwrap();
    assert!(get_message_details(&store, a).unwrap().is_read);
    assert!(!get_message_details(&store, b).unwrap().is_read);
    update_message_read_status(&mut store, a, false).unwrap();
    assert!(!get_message_details(&store, a).unwrap().is_read);

    star_message(&mut store, b).unwrap();
    let starred: Vec<i64> = get_starred_messages(&store, 1).unwrap().iter().map(|h| h.id).collect();
    assert_eq!(starred, vec![b]);
    assert!(get_starred_messages(&store, 2).unwrap().is_empty());
    unstar_message(&mut store, b).unwrap();
    assert!(get_starred_messages(&store, 1).unwrap().is_empty());

    bulk_mark_read(&mut store, &vec![a, c, 999]).unwrap();
    assert!(get_message_details(&store, a).unwrap().is_read);
    assert!(!get_message_details(&store, b).unwrap().is_read);
    assert!(get_message_details(&store, c).unwrap().is_read);
    bulk_mark_unread(&mut store, &vec![a]).unwrap();
    assert!(!get_message_details(&store, a).unwrap().is_read);
    bulk_mark_read(&mut store, &vec![]).unwrap();
    assert!(get_message_details(&store, c).unwrap().is_read);

    bulk_star_messages(&mut store, &vec![a, b]).unwrap();
    let starred: Vec<i64> = get_starred_messages(&store, 1).unwrap().iter().map(|h| h.id).collect();
    assert_eq!(starred, vec![b, a]);
    bulk_unstar_messages(&mut store, &vec![a]).unwrap();
    assert_eq!(get_starred_messages(&store, 1).unwrap().len(), 1);

    bulk_delete_messages(&mut store, &vec![a, b]).unwrap();
    assert_eq!(store.messages().len(), 1);
    assert!(get_message_details(&store, a).is_err());
    assert!(matches!(
        get_message_details(&store, a),
        Err(DEmailError::Database(_))
    ));
    assert!(get_message_details(&store, c).is_ok());
}

#[test]
fn moving_a_message() {
    let mut store = CacheStore::new();
    let a = save_message(&mut store, &message(1, 1, 1, "a", 1)).unwrap();
    let _b = save_message(&mut store, &message(1, 2, 1, "b", 1)).unwrap();
    // folder 2 has a message of the account with that UID
    assert!(move_message(&mut store, a, 2).is_err());
    assert_eq!(get_message_details(&store, a).unwrap().folder_id, 1);
    move_message(&mut store, a, 3).unwrap();
    assert_eq!(get_message_details(&store, a).unwrap().folder_id, 3);
    assert_eq!(count_messages_in_folder(&store, 1).unwrap(), 0);
    move_message(&mut store, a, 3).unwrap();
    move_message(&mut store, 12345, 3).unwrap();
}

#[test]
fn attachments_come_with_their_content() {
    let mut store = CacheStore::new();
    let m = save_message(&mut store, &message(1, 1, 1, "a", 1)).unwrap();
    let id = store_attachment(&mut store, &attachment(m, "a.txt"), b"abc").unwrap();
    assert_eq!(get_attachment_data(&store, id).unwrap(), Some(b"abc".to_vec()));
    let other = save_attachment(&mut store, &attachment(m, "b.txt")).unwrap();
    assert_ne!(other, id);
    assert_eq!(get_attachment_data(&store, other).unwrap(), None);
    save_attachment_data(&mut store, other, b"xyz").unwrap();
    save_attachment_data(&mut store, other, b"xyz2").unwrap();
    assert_eq!(get_attachment_data(&store, other).unwrap(), Some(b"xyz2".to_vec()));
    // content without an attachment is refused
    assert!(save_attachment_data(&mut store, 999, b"zzz").is_err());
    assert_eq!(get_attachment_data(&store, 999).unwrap(), None);

    let listed = get_attachments_for_message(&store, m).unwrap();
    assert_eq!(listed.len(), 2);
    assert_eq!(listed[0].filename, "a.txt");
    assert_eq!(listed[0].id, id);
    assert_eq!(get_message_details(&store, m).unwrap().attachments.len(), 2);

    delete_message(&mut store, m).unwrap();
    assert!(get_attachments_for_message(&store, m).unwrap().is_empty());
    assert_eq!(get_attachment_data(&store, id).unwrap(), None);
    assert_eq!(get_attachment_data(&store, other).unwrap(), None);
}

#[test]
fn accounts_are_known_by_their_address() {
    let mut store = CacheStore::new();
    let a = create_account(&mut store, "a@gmail.com", "A", "google").unwrap();
    assert_eq!(a.id, 1);
    assert_eq!(a.display_name, "A");
    assert_eq!(a.provider_type, "google");
    assert!(matches!(
        create_account(&mut store, "a@gmail.com", "Again", "google"),
        Err(DEmailError::Database(_))
    ));
    let b = create_account(&mut store, "b@outlook.com", "B", "microsoft").unwrap();
    assert_eq!(b.id, 2);
    let all = get_accounts(&store).unwrap();
    assert_eq!(all.len(), 2);
    assert_eq!(all[1].email_address, "b@outlook.com");
    assert!(get_account(&store, 3).is_none());
}

#[test]
fn folders_are_not_cached_twice() {
    let mut store = CacheStore::new();
    let mut inbox = Folder {
        id: 0,
        account_id: 1,
        name: "INBOX".to_string(),
        path: "INBOX".to_string(),
        parent_id: None,
    };
    save_folder(&mut store, &mut inbox).unwrap();
    assert_eq!(inbox.id, 1);
    let mut again = Folder {
        id: 0,
        account_id: 1,
        name: "Inbox".to_string(),
        path: "INBOX".to_string(),
        parent_id: None,
    };
    save_folder(&mut store, &mut again).unwrap();
    assert_eq!(again.id, 1);
    let mut other = Folder {
        id: 0,
        account_id: 2,
        name: "INBOX".to_string(),
        path: "INBOX".to_string(),
        parent_id: None,
    };
    save_folder(&mut store, &mut other).unwrap();
    assert_eq!(other.id, 2);
    let folders = get_folders(&store, 1).unwrap();
    assert_eq!(folders.len(), 1);
    assert_eq!(folders[0].name, "INBOX");
}

#[test]
fn drafts_are_added_and_edited() {
    let mut store = CacheStore::new();
    let id = save_draft(&mut store, &draft(1, "first"), 100).unwrap();
    assert_eq!(id, 1);
    let second = save_draft(&mut store, &draft(1, "second"), 200).unwrap();
    assert_eq!(second, 2);
    save_draft(&mut store, &draft(2, "other account"), 300).unwrap();

    let mut edit = draft(9, "first, edited");
    edit.id = id;
    edit.body_plain = Some("text".to_string());
    assert_eq!(save_draft(&mut store, &edit, 400).unwrap(), id);

    let drafts = get_drafts(&store, 1).unwrap();
    assert_eq!(drafts.len(), 2);
    assert_eq!(drafts[0].id, id);
    assert_eq!(drafts[0].subject, "first, edited");
    assert_eq!(drafts[0].body_plain, Some("text".to_string()));
    assert_eq!(drafts[0].created_at, 100);
    assert_eq!(drafts[0].updated_at, 400);
    assert_eq!(drafts[0].account_id, 1);
    assert_eq!(drafts[1].id, second);
    assert_eq!(drafts[1].updated_at, 200);

    // a draft that is not there is not made by an edit
    let mut ghost = draft(1, "ghost");
    ghost.id = 77;
    assert_eq!(save_draft(&mut store, &ghost, 500).unwrap(), 77);
    assert_eq!(get_drafts(&store, 1).unwrap().len(), 2);

    delete_draft(&mut store, id).unwrap();
    assert_eq!(get_drafts(&store, 1).unwrap().len(), 1);
    delete_draft(&mut store, id).unwrap();
    assert_eq!(get_drafts(&store, 2).unwrap().len(), 1);
}

#[test]
fn one_signature_is_the_default() {
    let mut store = CacheStore::new();
    let a = save_signature(&mut store, &signature(1, "Zeta", true)).unwrap();
    let b = save_signature(&mut store, &signature(1, "Alpha", false)).unwrap();
    let c = save_signature(&mut store, &signature(1, "Mid", true)).unwrap();
    let d = save_signature(&mut store, &signature(2, "Else", true)).unwrap();
    let list = get_signatures(&store, 1).unwrap();
    let names: Vec<&str> = list.iter().map(|s| s.name.as_str()).collect();
    assert_eq!(names, vec!["Mid", "Alpha", "Zeta"]);
    assert_eq!(list.iter().filter(|s| s.is_default).count(), 1);
    assert!(list[0].is_default);
    assert_eq!(list[0].id, c);
    assert!(get_signatures(&store, 2).unwrap()[0].is_default);

    let mut edit = signature(1, "Alpha, edited", true);
    edit.id = b;
    edit.content_plain = "Bye".to_string();
    assert_eq!(save_signature(&mut store, &edit).unwrap(), b);
    let list = get_signatures(&store, 1).unwrap();
    assert_eq!(list[0].id, b);
    assert_eq!(list[0].name, "Alpha, edited");
    assert_eq!(list[0].content_plain, "Bye");
    assert_eq!(list.iter().filter(|s| s.is_default).count(), 1);

    delete_signature(&mut store, a).unwrap();
    assert_eq!(get_signatures(&store, 1).unwrap().len(), 2);
    assert_eq!(get_signatures(&store, 2).unwrap()[0].id, d);
}

#[test]
fn settings_are_kept_by_key() {
    let mut store = CacheStore::new();
    assert_eq!(get_setting(&store, "theme").unwrap(), None);
    save_setting(&mut store, "theme", "dark").unwrap();
    save_setting(&mut store, "lang", "en").unwrap();
    save_setting(&mut store, "theme", "light").unwrap();
    assert_eq!(get_setting(&store, "theme").unwrap(), Some("light".to_string()));
    let all = get_all_settings(&store).unwrap();
    assert_eq!(all.len(), 2);
    assert_eq!(all[0].key, "theme");
    assert_eq!(all[0].value, "light");
    assert_eq!(all[1].key, "lang");
}

#[test]
fn threads_link_their_messages() {
    let mut store = CacheStore::new();
    let mut first = message(1, 1, 1, "Plan", 30);
    first.id = save_message(&mut store, &first).unwrap();
    let mut second = message(1, 1, 2, "Re: Plan", 10);
    second.id = save_message(&mut store, &second).unwrap();
    let mut third = message(2, 1, 1, "Plan", 20);
    third.id = save_message(&mut store, &third).unwrap();

    let t1 = create_or_update_thread(&mut store, &first, 100).unwrap();
    let t2 = create_or_update_thread(&mut store, &second, 200).unwrap();
    let t3 = create_or_update_thread(&mut store, &third, 300).unwrap();
    assert_eq!(t1, t2);
    assert_ne!(t1, t3);

    let thread = get_thread(&store, t1).unwrap();
    assert_eq!(thread.message_count, 2);
    assert_eq!(thread.first_message_id, first.id);
    assert_eq!(thread.last_message_id, second.id);
    assert!(get_thread(&store, 99).is_err());

    let in_thread: Vec<i64> = get_thread_messages(&store, t1).unwrap().iter().map(|m| m.id).collect();
    assert_eq!(in_thread, vec![second.id, first.id]);
    assert_eq!(get_message_details(&store, first.id).unwrap().thread_id, Some(t1));
    assert_eq!(get_message_details(&store, third.id).unwrap().thread_id, Some(t3));
}

#[test]
fn an_account_takes_what_it_owns_with_it() {
    let mut store = CacheStore::new();
    let a = create_account(&mut store, "a@gmail.com", "A", "google").unwrap().id;
    let b = create_account(&mut store, "b@gmail.com", "B", "google").unwrap().id;
    for account in [a, b] {
        let mut folder = Folder {
            id: 0,
            account_id: account,
            name: "INBOX".to_string(),
            path: "INBOX".to_string(),
            parent_id: None,
        };
        save_folder(&mut store, &mut folder).unwrap();
        let mut m = message(account, folder.id, 1, "Hello", 1);
        m.id = save_message(&mut store, &m).unwrap();
        store_attachment(&mut store, &attachment(m.id, "f.txt"), b"abc").unwrap();
        create_or_update_thread(&mut store, &m, 1).unwrap();
        save_draft(&mut store, &draft(account, "d"), 1).unwrap();
        save_signature(&mut store, &signature(account, "s", true)).unwrap();
    }
    save_setting(&mut store, "k", "v").unwrap();

    delete_account(&mut store, a).unwrap();

    assert_eq!(get_accounts(&store).unwrap().len(), 1);
    assert!(get_account(&store, a).is_none());
    assert!(get_folders(&store, a).unwrap().is_empty());
    assert_eq!(get_folders(&store, b).unwrap().len(), 1);
    assert_eq!(store.messages().len(), 1);
    assert_eq!(store.attachments().len(), 1);
    assert_eq!(store.threads().len(), 1);
    assert!(get_drafts(&store, a).unwrap().is_empty());
    assert_eq!(get_drafts(&store, b).unwrap().len(), 1);
    assert!(get_signatures(&store, a).unwrap().is_empty());
    assert_eq!(get_signatures(&store, b).unwrap().len(), 1);
    assert_eq!(get_all_settings(&store).unwrap().len(), 1);
    assert!(search_messages_fts(&store, a, "Hello").unwrap().is_empty());
    assert_eq!(search_messages_fts(&store, b, "Hello").unwrap().len(), 1);
}

#[test]
fn the_schema_is_brought_up_to_date() {
    let mut store = CacheStore::new();
    initialize_database(&mut store, 5).unwrap();
    assert_eq!(get_current_version(store.schema()).unwrap(), 3);
    initialize_database(&mut store, 6).unwrap();
    assert_eq!(store.schema().ledger().len(), 3);
    assert_eq!(store.schema().ledger()[0].applied_at, 5);
}

#[test]
fn a_query_is_answered_word_by_word() {
    let mut store = CacheStore::new();
    let mut m = message(1, 1, 1, "Budget review", 10);
    m.body_plain = Some("the numbers for the third quarter are attached".to_string());
    let id = save_message(&mut store, &m).unwrap();
    save_message(&mut store, &message(1, 1, 2, "Budget", 11)).unwrap();

    let ids = |query: &str| -> Vec<i64> {
        search_messages_fts(&store, 1, query)
            .unwrap()
            .iter()
            .map(|h| h.id)
            .collect()
    };
    // each word anywhere, in whichever column
    assert_eq!(ids("quarter numbers"), vec![id]);
    assert_eq!(ids("numbers   budget"), vec![id]);
    assert_eq!(ids(" REVIEW\tattached "), vec![id]);
    assert_eq!(ids("budget").len(), 2);
    // every word must be held
    assert!(ids("quarter missing").is_empty());
    // the words of the query, not the query as a whole
    assert!(ids("third quarter").contains(&id));
    assert!(ids("quarter third").contains(&id));
    // a query without a word finds nothing
    assert!(ids("").is_empty());
    assert!(ids("  \t ").is_empty());
}
