use demail::contacts::{parse_email_address, split_email_addresses, ContactBook};

#[test]
fn test_parse_email_address() {
    let (email, name) = parse_email_address("John Doe <john@example.com>").unwrap();
    assert_eq!(email, "john@example.com");
    assert_eq!(name, Some("John Doe".to_string()));

    let (email, name) = parse_email_address("jane@example.com").unwrap();
    assert_eq!(email, "jane@example.com");
    assert_eq!(name, None);

    let (email, name) = parse_email_address("\"Alice Smith\" <alice@example.com>").unwrap();
    assert_eq!(email, "alice@example.com");
    assert_eq!(name, Some("Alice Smith".to_string()));

    assert!(parse_email_address("not an email").is_none());
    assert!(parse_email_address("").is_none());
}

#[test]
fn test_split_email_addresses() {
    let addrs = split_email_addresses("john@example.com, jane@example.com");
    assert_eq!(addrs.len(), 2);
    assert_eq!(addrs[0], "john@example.com");
    assert_eq!(addrs[1], "jane@example.com");

    let addrs = split_email_addresses("alice@example.com; bob@example.com");
    assert_eq!(addrs.len(), 2);

    let addrs = split_email_addresses("single@example.com");
    assert_eq!(addrs.len(), 1);
}

#[test]
fn parse_email_address_edge_cases() {
    assert_eq!(
        parse_email_address("  <a@b.com>  "),
        Some(("a@b.com".to_string(), None))
    );
    assert_eq!(
        parse_email_address("\"\" <a@b.com>"),
        Some(("a@b.com".to_string(), None))
    );
    assert_eq!(
        parse_email_address("Name < a@b.com >"),
        Some(("a@b.com".to_string(), Some("Name".to_string())))
    );
    // a closing bracket before the opening one is no bracket form
    assert_eq!(
        parse_email_address("a>b<c@d"),
        Some(("a>b<c@d".to_string(), None))
    );
    assert_eq!(parse_email_address("a>b<c"), None);
    assert_eq!(parse_email_address("   "), None);
}

#[test]
fn split_email_addresses_edge_cases() {
    assert_eq!(split_email_addresses(""), Vec::<String>::new());
    assert_eq!(split_email_addresses(" , ; ,"), Vec::<String>::new());
    assert_eq!(
        split_email_addresses("a@b.com,,b@c.com;"),
        vec!["a@b.com".to_string(), "b@c.com".to_string()]
    );
}

#[test]
fn observing_a_contact_twice_then_without_a_name() {
    let mut book = ContactBook::new();
    book.extract_and_save_contacts("John <a@b.com>", "", None, 1000)
        .unwrap();
    let once = book.lookup("a@b.com").unwrap();
    assert_eq!(once.use_count, 1);
    assert_eq!(once.last_used, 1000);
    assert_eq!(once.name, Some("John".to_string()));

    book.extract_and_save_contacts("John <a@b.com>", "", None, 2000)
        .unwrap();
    let twice = book.lookup("a@b.com").unwrap();
    assert_eq!(twice.use_count, 2);
    assert_eq!(twice.last_used, 2000);
    assert_eq!(twice.id, once.id);

    book.extract_and_save_contacts("<a@b.com>", "", None, 3000)
        .unwrap();
    let third = book.lookup("a@b.com").unwrap();
    assert_eq!(third.use_count, 3);
    assert_eq!(third.last_used, 3000);
    assert_eq!(third.name, Some("John".to_string()));
    assert_eq!(book.len(), 1);

    book.save_or_update_contact("a@b.com", Some("   "), 4000)
        .unwrap();
    assert_eq!(book.lookup("a@b.com").unwrap().name, Some("John".to_string()));
    book.save_or_update_contact("a@b.com", Some("Johnny"), 5000)
        .unwrap();
    assert_eq!(
        book.lookup("a@b.com").unwrap().name,
        Some("Johnny".to_string())
    );
}

#[test]
fn contacts_come_from_all_address_fields() {
    let mut book = ContactBook::new();
    book.extract_and_save_contacts(
        "Sender <s@example.com>",
        "one@example.com, Two <two@example.com>; not an address, bad@",
        Some("three@example.com"),
        7,
    )
    .unwrap();
    assert_eq!(book.len(), 4);
    assert!(book.lookup("s@example.com").is_some());
    assert!(book.lookup("one@example.com").is_some());
    assert_eq!(
        book.lookup("two@example.com").unwrap().name,
        Some("Two".to_string())
    );
    assert!(book.lookup("three@example.com").is_some());
    assert!(book.lookup("bad@").is_none());
}

#[test]
fn contact_queries_rank_by_use_and_time() {
    let mut book = ContactBook::new();
    book.save_or_update_contact("old@example.com", Some("Old Friend"), 10)
        .unwrap();
    book.save_or_update_contact("busy@example.com", None, 20).unwrap();
    book.save_or_update_contact("busy@example.com", None, 30).unwrap();
    book.save_or_update_contact("new@example.com", Some("Newcomer"), 40)
        .unwrap();

    let recent = book.get_recent_contacts(2).unwrap();
    assert_eq!(recent.len(), 2);
    assert_eq!(recent[0].email, "new@example.com");
    assert_eq!(recent[1].email, "busy@example.com");

    let frequent = book.get_frequent_contacts(10).unwrap();
    assert_eq!(frequent.len(), 3);
    assert_eq!(frequent[0].email, "busy@example.com");
    assert_eq!(frequent[1].email, "new@example.com");
    assert_eq!(frequent[2].email, "old@example.com");

    let found = book.search_contacts("FRIEND").unwrap();
    assert_eq!(found.len(), 1);
    assert_eq!(found[0].email, "old@example.com");
    let found = book.search_contacts("example").unwrap();
    assert_eq!(found.len(), 3);
    assert_eq!(found[0].email, "busy@example.com");
    assert!(book.search_contacts("nobody").unwrap().is_empty());
}

#[test]
fn a_search_shows_twenty_contacts_at_most() {
    let mut book = ContactBook::new();
    for i in 0..25 {
        book.save_or_update_contact(&format!("user{}@example.com", i), None, i)
            .unwrap();
    }
    assert_eq!(book.search_contacts("user").unwrap().len(), 20);
    assert_eq!(book.get_recent_contacts(-1).unwrap().len(), 25);
    assert_eq!(book.get_recent_contacts(0).unwrap().len(), 0);
}

#[test]
fn the_sender_field_is_a_list_too() {
    let mut book = ContactBook::new();
    book.extract_and_save_contacts("a@b.com, c@d.com", "", None, 5)
        .unwrap();
    assert_eq!(book.len(), 2);
    let first = book.lookup("a@b.com").unwrap();
    assert_eq!(first.use_count, 1);
    assert_eq!(first.last_used, 5);
    let second = book.lookup("c@d.com").unwrap();
    assert_eq!(second.use_count, 1);
    assert!(book.lookup("a@b.com, c@d.com").is_none());

    book.extract_and_save_contacts("Ann <a@b.com>; ; Carl <c@d.com>", "a@b.com", Some(""), 6)
        .unwrap();
    assert_eq!(book.len(), 2);
    assert_eq!(book.lookup("a@b.com").unwrap().use_count, 3);
    assert_eq!(book.lookup("a@b.com").unwrap().name, Some("Ann".to_string()));
    assert_eq!(book.lookup("c@d.com").unwrap().use_count, 2);

    book.extract_and_save_contacts("", "", None, 7).unwrap();
    assert_eq!(book.len(), 2);
}
