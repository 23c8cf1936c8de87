use demail::attachments::{AttachmentTable, Blob};
use demail::auth::{get_google_client, get_microsoft_client, Provider};
use demail::cache::{
    create_account, get_attachment_data, get_message_details, save_draft, save_message,
    save_setting, store_attachment, store_attachment_data, CacheSnapshot, CacheStore,
};
use demail::contacts::ContactBook;
use demail::drafts::{
    auto_save_draft, create_or_update_draft, load_drafts_for_account, remove_draft,
};
use demail::error::DEmailError;
use demail::messages::MessageTable;
use demail::migrations::{
    apply_migrations, get_current_version, MigrationRecord, SchemaItem, SchemaState,
};
use demail::models::{Attachment, Contact, Draft, Message, Thread};
use demail::threading::ThreadTable;

fn message(id: i64, account_id: i64, folder_id: i64, uid: u32) -> Message {
    Message {
        id,
        account_id,
        folder_id,
        imap_uid: uid,
        message_id_header: String::new(),
        from_header: "a@b.co".to_string(),
        to_header: "c@d.co".to_string(),
        cc_header: None,
        subject: format!("subject {}", uid),
        date: uid as i64,
        body_plain: Some("plain".to_string()),
        body_html: None,
        has_attachments: false,
        is_read: false,
        is_starred: true,
        thread_id: Some(3),
        attachments: Vec::new(),
    }
}

fn draft(account_id: i64, subject: &str) -> Draft {
    Draft {
        id: 0,
        account_id,
        to_addresses: "x@y.z".to_string(),
        cc_addresses: None,
        bcc_addresses: None,
        subject: subject.to_string(),
        body_plain: None,
        body_html: None,
        created_at: 0,
        updated_at: 0,
    }
}

fn snapshot_of(store: &CacheStore) -> CacheSnapshot {
    CacheSnapshot {
        accounts: store.accounts().clone(),
        folders: store.folders().clone(),
        messages: store.messages().rows().clone(),
        attachments: store.attachments().rows().clone(),
        blobs: store
            .attachments()
            .blobs()
            .iter()
            .map(|b| Blob {
                attachment_id: b.attachment_id,
                data: b.data.clone(),
            })
            .collect(),
        drafts: store.drafts().clone(),
        signatures: store.signatures().clone(),
        settings: store.settings().clone(),
        threads: store.threads().rows().clone(),
        contacts: store.contacts().rows().clone(),
        schema_items: store.schema().items().clone(),
        migrations: store
            .schema()
            .ledger()
            .iter()
            .map(|r| MigrationRecord {
                version: r.version,
                description: r.description.clone(),
                applied_at: r.applied_at,
                applied: r.applied,
            })
            .collect(),
    }
}

#[test]
fn a_cache_comes_back_from_its_rows() {
    let mut store = CacheStore::new();
    demail::cache::initialize_database(&mut store, 9).unwrap();
    create_account(&mut store, "a@gmail.com", "A", "google").unwrap();
    let m = save_message(&mut store, &message(0, 1, 1, 5)).unwrap();
    let a = store_attachment(
        &mut store,
        &Attachment {
            id: 0,
            message_id: m,
            filename: "f".to_string(),
            mime_type: "t".to_string(),
            size_bytes: 2,
            local_path: None,
        },
        b"hi",
    )
    .unwrap();
    save_draft(&mut store, &draft(1, "d"), 1).unwrap();
    save_setting(&mut store, "k", "v").unwrap();
    demail::cache::extract_and_save_contacts(&mut store, "x@example.com", "", None, 4).unwrap();
    let mut stored = get_message_details(&store, m).unwrap();
    stored.attachments = Vec::new();
    demail::cache::create_or_update_thread(&mut store, &stored, 7).unwrap();

    let mut back = CacheStore::restore(snapshot_of(&store)).unwrap();
    assert_eq!(back.accounts().len(), 1);
    assert_eq!(back.messages().len(), 1);
    assert_eq!(get_attachment_data(&back, a).unwrap(), Some(b"hi".to_vec()));
    assert_eq!(back.threads().len(), 1);
    assert_eq!(back.contacts().len(), 1);
    assert_eq!(back.settings().len(), 1);
    assert_eq!(get_current_version(back.schema()).unwrap(), 3);
    assert!(back.schema().has(SchemaItem::AccountsTable));
    // new rows get the identifiers that follow
    assert_eq!(save_message(&mut back, &message(0, 1, 1, 6)).unwrap(), m + 1);
    assert_eq!(save_message(&mut back, &message(0, 1, 1, 5)).unwrap(), m);
    assert_eq!(create_account(&mut back, "b@gmail.com", "B", "google").unwrap().id, 2);
    assert_eq!(save_draft(&mut back, &draft(1, "e"), 2).unwrap(), 2);
}

#[test]
fn rows_that_break_a_constraint_are_refused() {
    let store = CacheStore::new();

    let mut twice = snapshot_of(&store);
    twice.messages = vec![message(1, 1, 1, 5), message(2, 1, 1, 5)];
    assert!(matches!(
        CacheStore::restore(twice),
        Err(DEmailError::Database(_))
    ));

    let mut same_id = snapshot_of(&store);
    same_id.messages = vec![message(1, 1, 1, 5), message(1, 1, 1, 6)];
    assert!(CacheStore::restore(same_id).is_err());

    let mut zero = snapshot_of(&store);
    zero.messages = vec![message(0, 1, 1, 5)];
    assert!(CacheStore::restore(zero).is_err());

    let mut orphan = snapshot_of(&store);
    orphan.blobs = vec![Blob {
        attachment_id: 4,
        data: vec![1],
    }];
    assert!(CacheStore::restore(orphan).is_err());

    let mut fine = snapshot_of(&store);
    fine.messages = vec![message(7, 1, 1, 5), message(3, 1, 2, 5)];
    let mut back = CacheStore::restore(fine).unwrap();
    assert_eq!(save_message(&mut back, &message(0, 9, 9, 9)).unwrap(), 8);
}

#[test]
fn tables_come_back_from_their_rows() {
    assert!(MessageTable::restore(vec![message(1, 1, 1, 1)]).is_some());
    let mut with_attachment = message(1, 1, 1, 1);
    with_attachment.attachments.push(Attachment {
        id: 1,
        message_id: 1,
        filename: String::new(),
        mime_type: String::new(),
        size_bytes: 0,
        local_path: None,
    });
    assert!(MessageTable::restore(vec![with_attachment]).is_none());
    assert!(MessageTable::restore(vec![message(i64::MAX, 1, 1, 1)]).is_none());

    let thread = |id: i64, account_id: i64, hash: &str| Thread {
        id,
        subject_hash: hash.to_string(),
        first_message_id: 1,
        last_message_id: 1,
        message_count: 1,
        account_id,
        created_at: 0,
        updated_at: 0,
    };
    assert!(ThreadTable::restore(vec![thread(1, 1, "a"), thread(2, 2, "a")]).is_some());
    assert!(ThreadTable::restore(vec![thread(1, 1, "a"), thread(2, 1, "a")]).is_none());
    assert!(ThreadTable::restore(vec![thread(1, 1, "a"), thread(1, 1, "b")]).is_none());

    let contact = |id: i64, email: &str| Contact {
        id,
        email: email.to_string(),
        name: None,
        last_used: 0,
        use_count: 1,
    };
    let book = ContactBook::restore(vec![contact(5, "a@b"), contact(2, "c@d")]).unwrap();
    assert_eq!(book.lookup("c@d").unwrap().id, 2);
    assert!(ContactBook::restore(vec![contact(1, "a@b"), contact(2, "a@b")]).is_none());
    assert!(ContactBook::restore(vec![contact(-1, "a@b")]).is_none());

    assert!(AttachmentTable::restore(Vec::new(), Vec::new()).is_some());

    let record = |version: i64| MigrationRecord {
        version,
        description: String::new(),
        applied_at: 0,
        applied: true,
    };
    let mut state = SchemaState::restore(
        vec![SchemaItem::MigrationsTable],
        vec![record(1), record(2)],
    )
    .unwrap();
    assert_eq!(get_current_version(&state).unwrap(), 2);
    apply_migrations(&mut state, 50).unwrap();
    assert_eq!(get_current_version(&state).unwrap(), 3);
    assert_eq!(state.ledger().len(), 3);
    assert!(SchemaState::restore(Vec::new(), vec![record(1), record(1)]).is_none());
}

#[test]
fn drafts_as_the_editor_asks_for_them() {
    let mut store = CacheStore::new();
    let id = create_or_update_draft(&mut store, &draft(1, "one"), 10).unwrap();
    let mut edit = draft(1, "one, again");
    edit.id = id;
    assert_eq!(auto_save_draft(&mut store, &edit, 20).unwrap(), id);
    let drafts = load_drafts_for_account(&store, 1).unwrap();
    assert_eq!(drafts.len(), 1);
    assert_eq!(drafts[0].subject, "one, again");
    assert_eq!(drafts[0].updated_at, 20);
    remove_draft(&mut store, id).unwrap();
    assert!(load_drafts_for_account(&store, 1).unwrap().is_empty());
}

#[test]
fn content_is_stored_for_its_attachment() {
    let mut store = CacheStore::new();
    let m = save_message(&mut store, &message(0, 1, 1, 1)).unwrap();
    let a = demail::cache::save_attachment(
        &mut store,
        &Attachment {
            id: 0,
            message_id: m,
            filename: "f".to_string(),
            mime_type: "t".to_string(),
            size_bytes: 3,
            local_path: None,
        },
    )
    .unwrap();
    store_attachment_data(&mut store, a, vec![1, 2, 3]).unwrap();
    assert_eq!(get_attachment_data(&store, a).unwrap(), Some(vec![1, 2, 3]));
    assert!(store_attachment_data(&mut store, a + 1, vec![1]).is_err());
}

#[test]
fn the_clients_of_the_providers() {
    let g = get_google_client("id".to_string(), "s".to_string());
    assert_eq!(g.provider, Provider::Google);
    assert_eq!(g.client_id, "id");
    assert_eq!(g.client_secret, "s");
    let m = get_microsoft_client("id".to_string(), "s".to_string());
    assert_eq!(m.provider, Provider::Microsoft);
}
