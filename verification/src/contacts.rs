//! The address book that is gathered from the mail that passes.

use crate::error::{DEmailError, ErrorKind};
use crate::models::{opt_text, Contact, ContactModel};
use crate::ranking::{arrange_rows, arranged, indices, SortKey, SortKeyModel};
use crate::table::{next_after, next_identifier, valid_ids};
use crate::text::{contains, contains_text, lowercase, lowercase_of, chars_of, contains_char, find_class, find_from, list_entries, list_entries_of, slice_of, str_equal, string_of, texts, trim, trim_matches, trim_matches_of, trim_of, CharClass};
use crate::threading::bump;
use crate::validation::{email_check, validate_email, validator_accepts_email};
use vstd::prelude::*;
use vstd::string::StringExecFns;

verus! {

/// An address with the name that stood before it, if one did.
pub struct ParsedAddress {
    pub email: Seq<char>,
    pub name: Option<Seq<char>>,
}

/// What one entry of an address field says. The form `Name <email>` gives
/// the text between the first `<` and the first `>` as the address and the
/// text before the `<`, without quotes around it, as the name; any other
/// text that holds an `@` is an address without a name. Everything is
/// trimmed of whitespace; a name of which nothing is left counts as none.
pub open spec fn parse_address(addr: Seq<char>) -> Option<ParsedAddress> {
    let t = trim(addr);
    let open = find_from(t, CharClass::Is('<'), 0);
    let close = find_from(t, CharClass::Is('>'), 0);
    if open < close < t.len() {
        let name = trim(trim_matches(trim(t.take(open)), CharClass::Is('"')));
        Some(
            ParsedAddress {
                email: trim(t.subrange(open + 1, close)),
                name: if name.len() == 0 {
                    None
                } else {
                    Some(name)
                },
            },
        )
    } else if t.len() > 0 && t.contains('@') {
        Some(ParsedAddress { email: t, name: None })
    } else {
        None
    }
}

/// The model of what [`parse_email_address`] returns.
pub open spec fn parsed_model(r: Option<(String, Option<String>)>) -> Option<ParsedAddress> {
    match r {
        Some((email, name)) => Some(ParsedAddress { email: email@, name: opt_text(name) }),
        None => None,
    }
}

/// Reads one entry of an address field: `Name <email>` or a bare address.
pub fn parse_email_address(addr: &str) -> (r: Option<(String, Option<String>)>)
    ensures
        parsed_model(r) == parse_address(addr@),
{
    let t = trim_of(&chars_of(addr));
    let open: usize = find_class(&t, CharClass::Is('<'), 0);
    let close: usize = find_class(&t, CharClass::Is('>'), 0);
    if open < close && close < t.len() {
        let email = trim_of(&slice_of(&t, open + 1, close));
        let before = slice_of(&t, 0, open);
        proof {
            assert(before@ == t@.take(open as int));
        }
        let name = trim_of(&trim_matches_of(&trim_of(&before), CharClass::Is('"')));
        let named = if name.len() == 0 {
            None
        } else {
            Some(string_of(&name))
        };
        return Some((string_of(&email), named));
    }
    if t.len() > 0 && contains_char(&t, '@') {
        return Some((string_of(&t), None));
    }
    None
}

/// The texts of a vector of strings.
pub open spec fn string_texts(v: Seq<String>) -> Seq<Seq<char>> {
    v.map_values(|s: String| s@)
}

/// The entries of an address field that is written with commas or
/// semicolons between them, each trimmed, the empty ones left out.
pub fn split_email_addresses(addresses: &str) -> (r: Vec<String>)
    ensures
        string_texts(r@) == list_entries(addresses@),
{
    let entries = list_entries_of(&chars_of(addresses));
    let mut r: Vec<String> = Vec::new();
    let mut i: usize = 0;
    while i < entries.len()
        invariant
            i <= entries.len(),
            string_texts(r@) == texts(entries@).take(i as int),
        decreases entries.len() - i,
    {
        let s = string_of(&entries[i]);
        proof {
            assert(string_texts(r@.push(s)) =~= string_texts(r@).push(s@));
            assert(texts(entries@).take(i + 1) =~= texts(entries@).take(i as int).push(
                entries@[i as int]@,
            ));
        }
        r.push(s);
        i += 1;
    }
    proof {
        assert(texts(entries@).take(entries.len() as int) == texts(entries@));
    }
    r
}

/// Whether a name was given: it is there and more than whitespace.
pub open spec fn names_someone(name: Option<Seq<char>>) -> bool {
    name matches Some(n) && trim(n).len() > 0
}

/// The address book, as rows in the order in which the contacts were first
/// seen, with the identifier that the next new contact gets.
pub struct ContactBookModel {
    pub rows: Seq<ContactModel>,
    pub next_id: int,
}

impl ContactBookModel {
    /// Identifiers start at 1, lie below `next_id` and occur once, and no
    /// address occurs twice.
    pub open spec fn wf(self) -> bool {
        &&& 1 <= self.next_id <= i64::MAX
        &&& forall|i: int| 0 <= i < self.rows.len() ==> 1 <= (#[trigger] self.rows[i]).id < self.next_id
        &&& forall|i: int, j: int|
            0 <= i < self.rows.len() && 0 <= j < self.rows.len() && i != j ==> (
            #[trigger] self.rows[i]).id != (#[trigger] self.rows[j]).id
        &&& forall|i: int, j: int|
            0 <= i < self.rows.len() && 0 <= j < self.rows.len() && i != j ==> (
            #[trigger] self.rows[i]).email != (#[trigger] self.rows[j]).email
    }

    /// Whether row `i` is the contact with the address `email`.
    pub open spec fn holds(self, i: int, email: Seq<char>) -> bool {
        0 <= i < self.rows.len() && self.rows[i].email == email
    }

    /// The index of the contact with the address `email`.
    pub open spec fn find(self, email: Seq<char>) -> Option<int> {
        if exists|i: int| self.holds(i, email) {
            Some(choose|i: int| self.holds(i, email))
        } else {
            None
        }
    }

    /// The contact with the address `email`.
    pub open spec fn lookup(self, email: Seq<char>) -> Option<ContactModel> {
        match self.find(email) {
            Some(i) => Some(self.rows[i]),
            None => None,
        }
    }

    /// The book after `email` was seen at `timestamp` under `name`, and
    /// whether that could be recorded. A known contact is counted once more
    /// and was last used at `timestamp`; its name changes only where a name
    /// was given. An unknown one is added with a count of 1. Nothing changes
    /// where a contact is to be added and no identifier is left.
    pub open spec fn observe(self, email: Seq<char>, name: Option<Seq<char>>, timestamp: i64) -> (
        ContactBookModel,
        bool,
    ) {
        match self.find(email) {
            Some(i) => (
                ContactBookModel {
                    rows: self.rows.update(
                        i,
                        ContactModel {
                            name: if names_someone(name) {
                                name
                            } else {
                                self.rows[i].name
                            },
                            last_used: timestamp,
                            use_count: bump(self.rows[i].use_count),
                            ..self.rows[i]
                        },
                    ),
                    ..self
                },
                true,
            ),
            None => if self.next_id < i64::MAX {
                (
                    ContactBookModel {
                        rows: self.rows.push(
                            ContactModel {
                                id: self.next_id as i64,
                                email,
                                name,
                                last_used: timestamp,
                                use_count: 1,
                            },
                        ),
                        next_id: self.next_id + 1,
                    },
                    true,
                )
            } else {
                (self, false)
            },
        }
    }

    /// The book after the entry `candidate` of an address field was seen:
    /// it is observed where it reads as an address that the address rule
    /// accepts, and changes nothing otherwise.
    pub open spec fn observe_entry(self, candidate: Seq<char>, timestamp: i64) -> (
        ContactBookModel,
        bool,
    ) {
        match parse_address(candidate) {
            Some(p) => if email_check(p.email, validator_accepts_email(p.email)) is Ok {
                self.observe(p.email, p.name, timestamp)
            } else {
                (self, true)
            },
            None => (self, true),
        }
    }

    /// The book after the entries from index `from` on were seen in order,
    /// up to the first that could not be recorded.
    pub open spec fn observe_entries(self, entries: Seq<Seq<char>>, from: int, timestamp: i64) -> (
        ContactBookModel,
        bool,
    )
        decreases entries.len() - from,
    {
        if from < 0 || from >= entries.len() {
            (self, true)
        } else {
            let (next, ok) = self.observe_entry(entries[from], timestamp);
            if ok {
                next.observe_entries(entries, from + 1, timestamp)
            } else {
                (next, false)
            }
        }
    }
}

/// The entries of the address fields of a message, in the order in which
/// they are observed: those of the sender field, those of the recipients,
/// then those in copy. Every field is a list with commas or semicolons
/// between its entries.
pub open spec fn header_entries(from: Seq<char>, to: Seq<char>, cc: Option<Seq<char>>) -> Seq<
    Seq<char>,
> {
    list_entries(from) + list_entries(to) + match cc {
        Some(c) => list_entries(c),
        None => Seq::empty(),
    }
}

/// Observing keeps the book well formed.
pub proof fn lemma_observe_wf(
    book: ContactBookModel,
    email: Seq<char>,
    name: Option<Seq<char>>,
    timestamp: i64,
)
    requires
        book.wf(),
    ensures
        book.observe(email, name, timestamp).0.wf(),
{
    let after = book.observe(email, name, timestamp).0;
    match book.find(email) {
        Some(i) => {
            assert(book.holds(i, email));
            assert forall|a: int, b: int|
                0 <= a < after.rows.len() && 0 <= b < after.rows.len() && a != b implies (
                #[trigger] after.rows[a]).email != (#[trigger] after.rows[b]).email by {
                assert(after.rows[a].email == book.rows[a].email);
                assert(after.rows[b].email == book.rows[b].email);
            }
            assert forall|a: int, b: int|
                0 <= a < after.rows.len() && 0 <= b < after.rows.len() && a != b implies (
                #[trigger] after.rows[a]).id != (#[trigger] after.rows[b]).id by {
                assert(after.rows[a].id == book.rows[a].id);
                assert(after.rows[b].id == book.rows[b].id);
            }
            assert forall|a: int| 0 <= a < after.rows.len() implies 1 <= (
            #[trigger] after.rows[a]).id < after.next_id by {
                assert(after.rows[a].id == book.rows[a].id);
            }
        },
        None => {
            if book.next_id < i64::MAX {
                assert forall|a: int, b: int|
                    0 <= a < after.rows.len() && 0 <= b < after.rows.len() && a != b implies (
                    #[trigger] after.rows[a]).email != (#[trigger] after.rows[b]).email by {
                    if a < book.rows.len() && b < book.rows.len() {
                        assert(after.rows[a] == book.rows[a]);
                        assert(after.rows[b] == book.rows[b]);
                    } else if a < book.rows.len() {
                        assert(!book.holds(a, email));
                    } else {
                        assert(!book.holds(b, email));
                    }
                }
                assert forall|a: int, b: int|
                    0 <= a < after.rows.len() && 0 <= b < after.rows.len() && a != b implies (
                    #[trigger] after.rows[a]).id != (#[trigger] after.rows[b]).id by {
                    if a < book.rows.len() {
                        assert(after.rows[a] == book.rows[a]);
                    }
                    if b < book.rows.len() {
                        assert(after.rows[b] == book.rows[b]);
                    }
                }
                assert forall|a: int| 0 <= a < after.rows.len() implies 1 <= (
                #[trigger] after.rows[a]).id < after.next_id by {
                    if a < book.rows.len() {
                        assert(after.rows[a] == book.rows[a]);
                    }
                }
            }
        },
    }
}

/// What the book holds of `email` after it was observed, where that could
/// be recorded: a new contact has a count of 1, a known one is counted once
/// more; either was last used at `timestamp`; the name is the one given, or
/// the one recorded before where none was given.
pub proof fn lemma_observe_lookup(
    book: ContactBookModel,
    email: Seq<char>,
    name: Option<Seq<char>>,
    timestamp: i64,
)
    requires
        book.wf(),
        book.observe(email, name, timestamp).1,
    ensures
        ({
            let after = book.observe(email, name, timestamp).0;
            &&& after.lookup(email) is Some
            &&& after.lookup(email).unwrap().email == email
            &&& after.lookup(email).unwrap().last_used == timestamp
            &&& match book.lookup(email) {
                Some(known) => {
                    &&& after.lookup(email).unwrap().use_count == bump(known.use_count)
                    &&& after.lookup(email).unwrap().id == known.id
                    &&& after.lookup(email).unwrap().name == if names_someone(name) {
                        name
                    } else {
                        known.name
                    }
                },
                None => after.lookup(email).unwrap().use_count == 1 && after.lookup(
                    email,
                ).unwrap().name == name,
            }
        }),
{
    let after = book.observe(email, name, timestamp).0;
    lemma_observe_wf(book, email, name, timestamp);
    let at: int = match book.find(email) {
        Some(i) => i,
        None => book.rows.len() as int,
    };
    if book.find(email) is Some {
        assert(book.holds(at, email));
    }
    assert(after.holds(at, email));
    let k = after.find(email).unwrap();
    assert(after.holds(k, email));
    assert(k == at);
}

/// A contact that is observed twice, and was unknown before, has a count
/// of 2 and was last used at the time of the second observation.
pub proof fn law_observed_twice(
    book: ContactBookModel,
    email: Seq<char>,
    first_name: Option<Seq<char>>,
    second_name: Option<Seq<char>>,
    first_time: i64,
    second_time: i64,
)
    requires
        book.wf(),
        book.lookup(email) is None,
        book.observe(email, first_name, first_time).1,
    ensures
        ({
            let once = book.observe(email, first_name, first_time).0;
            let (twice, recorded) = once.observe(email, second_name, second_time);
            &&& recorded
            &&& twice.lookup(email) is Some
            &&& twice.lookup(email).unwrap().use_count == 2
            &&& twice.lookup(email).unwrap().last_used == second_time
        }),
{
    let once = book.observe(email, first_name, first_time).0;
    lemma_observe_wf(book, email, first_name, first_time);
    lemma_observe_lookup(book, email, first_name, first_time);
    lemma_observe_lookup(once, email, second_name, second_time);
}

/// An observation without a name, or with a name of whitespace alone,
/// leaves the name that a known contact has.
pub proof fn law_blank_name_keeps_name(
    book: ContactBookModel,
    email: Seq<char>,
    name: Option<Seq<char>>,
    timestamp: i64,
)
    requires
        book.wf(),
        book.lookup(email) is Some,
        !names_someone(name),
    ensures
        ({
            let (after, recorded) = book.observe(email, name, timestamp);
            &&& recorded
            &&& after.lookup(email) is Some
            &&& after.lookup(email).unwrap().name == book.lookup(email).unwrap().name
        }),
{
    lemma_observe_lookup(book, email, name, timestamp);
}

/// Observing one address leaves every other contact as it was.
pub proof fn law_observe_leaves_others(
    book: ContactBookModel,
    email: Seq<char>,
    name: Option<Seq<char>>,
    timestamp: i64,
    other: Seq<char>,
)
    requires
        book.wf(),
        other != email,
    ensures
        book.observe(email, name, timestamp).0.lookup(other) == book.lookup(other),
{
    let after = book.observe(email, name, timestamp).0;
    lemma_observe_wf(book, email, name, timestamp);
    if book.find(email) is Some {
        assert(book.holds(book.find(email).unwrap(), email));
    }
    if book.find(other) is Some {
        let i = book.find(other).unwrap();
        assert(book.holds(i, other));
        assert(after.holds(i, other));
        let k = after.find(other).unwrap();
        assert(after.holds(k, other));
        assert(k == i);
    } else {
        if after.find(other) is Some {
            let k = after.find(other).unwrap();
            assert(after.holds(k, other));
            assert(book.holds(k, other));
        }
    }
}

/// The address book.
pub struct ContactBook {
    rows: Vec<Contact>,
    next_id: i64,
}

impl View for ContactBook {
    type V = ContactBookModel;

    closed spec fn view(&self) -> ContactBookModel {
        ContactBookModel {
            rows: self.rows@.map_values(|c: Contact| c@),
            next_id: self.next_id as int,
        }
    }
}

/// The text of an optional string slice.
pub open spec fn opt_str_text(o: Option<&str>) -> Option<Seq<char>> {
    match o {
        Some(s) => Some(s@),
        None => None,
    }
}

impl ContactBook {
    /// Whether the book is well formed, as every book made by [`Self::new`]
    /// and changed by the methods of this type is.
    pub open spec fn wf(&self) -> bool {
        self@.wf()
    }

    /// The empty book.
    pub fn new() -> (b: ContactBook)
        ensures
            b.wf(),
            b@.rows.len() == 0,
            b@.next_id == 1,
    {
        ContactBook { rows: Vec::new(), next_id: 1 }
    }

    /// The number of contacts.
    pub fn len(&self) -> (n: usize)
        ensures
            n == self@.rows.len(),
    {
        self.rows.len()
    }

    fn position(&self, email: &str) -> (r: Option<usize>)
        requires
            self.wf(),
        ensures
            match r {
                Some(i) => self@.find(email@) == Some(i as int) && i < self.rows.len(),
                None => self@.find(email@) is None,
            },
    {
        let mut i: usize = 0;
        while i < self.rows.len()
            invariant
                i <= self.rows.len(),
                self.wf(),
                forall|j: int| 0 <= j < i ==> !self@.holds(j, email@),
            decreases self.rows.len() - i,
        {
            if str_equal(self.rows[i].email.as_str(), email) {
                proof {
                    assert(self@.holds(i as int, email@));
                    let k = choose|k: int| self@.holds(k, email@);
                    assert(self@.holds(k, email@));
                    assert(k == i);
                }
                return Some(i);
            }
            i += 1;
        }
        None
    }

    /// The contact with the address `email`.
    pub fn lookup(&self, email: &str) -> (r: Option<Contact>)
        requires
            self.wf(),
        ensures
            match r {
                Some(c) => self@.lookup(email@) == Some(c@),
                None => self@.lookup(email@) is None,
            },
    {
        match self.position(email) {
            Some(i) => Some(self.rows[i].clone()),
            None => None,
        }
    }

    /// Records that `email` was seen at `timestamp` under `name`. Fails with
    /// a database error, and changes nothing, where the contact is new and
    /// no identifier is left.
    pub fn save_or_update_contact(&mut self, email: &str, name: Option<&str>, timestamp: i64) -> (r:
        Result<(), DEmailError>)
        requires
            old(self).wf(),
        ensures
            final(self).wf(),
            final(self)@ == old(self)@.observe(email@, opt_str_text(name), timestamp).0,
            r is Ok == old(self)@.observe(email@, opt_str_text(name), timestamp).1,
            r matches Err(e) ==> e@.kind == ErrorKind::Database,
    {
        proof {
            lemma_observe_wf(self@, email@, opt_str_text(name), timestamp);
        }
        match self.position(email) {
            Some(i) => {
                let row = &self.rows[i];
                let given: Option<String> = match name {
                    Some(n) => {
                        if trim_of(&chars_of(n)).len() > 0 {
                            Some(String::from_str(n))
                        } else {
                            None
                        }
                    },
                    None => None,
                };
                let kept: Option<String> = match given {
                    Some(n) => Some(n),
                    None => row.name.clone(),
                };
                let count: i64 = if row.use_count < i64::MAX {
                    row.use_count + 1
                } else {
                    row.use_count
                };
                let touched = Contact {
                    id: row.id,
                    email: row.email.clone(),
                    name: kept,
                    last_used: timestamp,
                    use_count: count,
                };
                let ghost before = self@;
                self.rows.set(i, touched);
                proof {
                    assert(self@.rows =~= before.rows.update(i as int, touched@));
                }
                Ok(())
            },
            None => {
                if self.next_id == i64::MAX {
                    return Err(
                        DEmailError::Database(String::from_str("no contact identifier is left")),
                    );
                }
                let id = self.next_id;
                let made = Contact {
                    id,
                    email: String::from_str(email),
                    name: match name {
                        Some(n) => Some(String::from_str(n)),
                        None => None,
                    },
                    last_used: timestamp,
                    use_count: 1,
                };
                let ghost before = self@;
                self.rows.push(made);
                self.next_id = id + 1;
                proof {
                    assert(self@.rows =~= before.rows.push(made@));
                }
                Ok(())
            },
        }
    }

    /// Records what one entry of an address field says, if it reads as an
    /// address that the address rule accepts.
    fn observe_entry(&mut self, candidate: &str, timestamp: i64) -> (r: Result<(), DEmailError>)
        requires
            old(self).wf(),
        ensures
            final(self).wf(),
            final(self)@ == old(self)@.observe_entry(candidate@, timestamp).0,
            r is Ok == old(self)@.observe_entry(candidate@, timestamp).1,
            r matches Err(e) ==> e@.kind == ErrorKind::Database,
    {
        match parse_email_address(candidate) {
            Some((email, name)) => {
                if validate_email(email.as_str()).is_ok() {
                    match name {
                        Some(n) => self.save_or_update_contact(
                            email.as_str(),
                            Some(n.as_str()),
                            timestamp,
                        ),
                        None => self.save_or_update_contact(email.as_str(), None, timestamp),
                    }
                } else {
                    Ok(())
                }
            },
            None => Ok(()),
        }
    }

    /// Records the addresses of a message's sender, recipients and those in
    /// copy, as seen at `now`: each of `from`, `to` and `cc` is a list of
    /// entries with commas or semicolons between them.
    /// Entries that do not read as an address, or that the address rule
    /// refuses, are passed over. Stops at the first contact that cannot be
    /// recorded, with a database error.
    pub fn extract_and_save_contacts(&mut self, from: &str, to: &str, cc: Option<&str>, now: i64) -> (r:
        Result<(), DEmailError>)
        requires
            old(self).wf(),
        ensures
            final(self).wf(),
            final(self)@ == old(self)@.observe_entries(
                header_entries(from@, to@, opt_str_text(cc)),
                0,
                now,
            ).0,
            r is Ok == old(self)@.observe_entries(
                header_entries(from@, to@, opt_str_text(cc)),
                0,
                now,
            ).1,
            r matches Err(e) ==> e@.kind == ErrorKind::Database,
    {
        let mut entries: Vec<String> = split_email_addresses(from);
        let mut recipients = split_email_addresses(to);
        append_strings(&mut entries, &mut recipients);
        match cc {
            Some(c) => {
                let mut copied = split_email_addresses(c);
                append_strings(&mut entries, &mut copied);
            },
            None => {
                proof {
                    assert(string_texts(entries@) =~= string_texts(entries@) + Seq::<
                        Seq<char>,
                    >::empty());
                }
            },
        }
        assert(string_texts(entries@) == header_entries(from@, to@, opt_str_text(cc)));
        let mut i: usize = 0;
        while i < entries.len()
            invariant
                i <= entries.len(),
                self.wf(),
                string_texts(entries@) == header_entries(from@, to@, opt_str_text(cc)),
                old(self)@.observe_entries(string_texts(entries@), 0, now) == self@.observe_entries(
                    string_texts(entries@),
                    i as int,
                    now,
                ),
            decreases entries.len() - i,
        {
            match self.observe_entry(entries[i].as_str(), now) {
                Ok(_) => {},
                Err(e) => {
                    return Err(e);
                },
            }
            i += 1;
        }
        Ok(())
    }
}

/// Moves the strings of `more` to the end of `all`.
fn append_strings(all: &mut Vec<String>, more: &mut Vec<String>)
    ensures
        string_texts(final(all)@) == string_texts(old(all)@) + string_texts(old(more)@),
{
    all.append(more);
    proof {
        assert(string_texts(all@) =~= string_texts(old(all)@) + string_texts(old(more)@));
    }
}

/// Whether a contact answers a search: its address or its name holds the
/// query, both taken in lower case.
pub open spec fn contact_matches(c: ContactModel, query: Seq<char>) -> bool {
    ||| contains_text(lowercase_of(c.email), lowercase_of(query))
    ||| (c.name matches Some(n) && contains_text(lowercase_of(n), lowercase_of(query)))
}

/// The contacts that answer `query`.
pub open spec fn matching(query: Seq<char>) -> spec_fn(ContactModel) -> bool {
    |c: ContactModel| contact_matches(c, query)
}

/// Every contact.
pub open spec fn everyone() -> spec_fn(ContactModel) -> bool {
    |c: ContactModel| true
}

/// Most used first; among those used as often, last used first.
pub open spec fn most_used_first() -> spec_fn(ContactModel) -> SortKeyModel {
    |c: ContactModel| SortKeyModel { major: c.use_count, minor: c.last_used, text: Seq::empty() }
}

/// Last used first.
pub open spec fn last_used_first() -> spec_fn(ContactModel) -> SortKeyModel {
    |c: ContactModel| SortKeyModel { major: c.last_used, minor: 0, text: Seq::empty() }
}

/// The models of the contacts that a vector holds.
pub open spec fn contact_models(v: Seq<Contact>) -> Seq<ContactModel> {
    v.map_values(|c: Contact| c@)
}

/// The most that a search shows.
pub const SEARCH_LIMIT: i64 = 20;

impl ContactBookModel {
    /// What a query of the book shows.
    pub open spec fn listing(
        self,
        keep: spec_fn(ContactModel) -> bool,
        key: spec_fn(ContactModel) -> SortKeyModel,
        limit: int,
    ) -> Seq<ContactModel> {
        arranged(self.rows, keep, key, limit, 0).map_values(|i: int| self.rows[i])
    }
}

impl ContactBook {
    /// The contacts at the indices `shown`.
    fn pick(&self, shown: &Vec<usize>) -> (v: Vec<Contact>)
        requires
            forall|j: int| 0 <= j < shown.len() ==> #[trigger] shown@[j] < self.rows.len(),
        ensures
            contact_models(v@) == indices(shown@).map_values(|i: int| self@.rows[i]),
    {
        let mut v: Vec<Contact> = Vec::new();
        let mut k: usize = 0;
        while k < shown.len()
            invariant
                k <= shown.len(),
                forall|j: int| 0 <= j < shown.len() ==> #[trigger] shown@[j] < self.rows.len(),
                v.len() == k,
                forall|j: int| 0 <= j < k ==> (#[trigger] v@[j])@ == self@.rows[shown@[j] as int],
            decreases shown.len() - k,
        {
            proof {
                assert(self@.rows[shown@[k as int] as int] == self.rows@[shown@[k as int] as int]@);
            }
            v.push(self.rows[shown[k]].clone());
            k += 1;
        }
        proof {
            let want = indices(shown@).map_values(|i: int| self@.rows[i]);
            assert(contact_models(v@).len() == want.len());
            assert forall|j: int| 0 <= j < v.len() implies contact_models(v@)[j] == want[j] by {
                assert(indices(shown@)[j] == shown@[j]);
            }
            assert(contact_models(v@) =~= want);
        }
        v
    }

    /// The contacts whose address or name holds `query`, whatever the case
    /// of the letters: the twenty that were used most, the most used first.
    pub fn search_contacts(&self, query: &str) -> (r: Result<Vec<Contact>, DEmailError>)
        ensures
            r matches Ok(v) && contact_models(v@) == self@.listing(
                matching(query@),
                most_used_first(),
                SEARCH_LIMIT as int,
            ),
    {
        let low = chars_of(lowercase(query).as_str());
        let mut kept: Vec<bool> = Vec::new();
        let mut keys: Vec<SortKey> = Vec::new();
        let mut i: usize = 0;
        while i < self.rows.len()
            invariant
                i <= self.rows.len(),
                low@ == lowercase_of(query@),
                kept.len() == i,
                keys.len() == i,
                forall|j: int| 0 <= j < i ==> #[trigger] kept@[j] == (matching(query@))(self@.rows[j]),
                forall|j: int| 0 <= j < i ==> (#[trigger] keys@[j])@ == (most_used_first())(self@.rows[j]),
            decreases self.rows.len() - i,
        {
            let row = &self.rows[i];
            proof {
                assert(self@.rows[i as int] == row@);
            }
            let in_email = contains(&chars_of(lowercase(row.email.as_str()).as_str()), &low);
            let in_name = match &row.name {
                Some(n) => contains(&chars_of(lowercase(n.as_str()).as_str()), &low),
                None => false,
            };
            kept.push(in_email || in_name);
            keys.push(SortKey { major: row.use_count, minor: row.last_used, text: Vec::new() });
            i += 1;
        }
        let shown = arrange_rows::<ContactModel>(
            Ghost(self@.rows),
            Ghost(matching(query@)),
            Ghost(most_used_first()),
            &kept,
            &keys,
            SEARCH_LIMIT,
            0,
        );
        Ok(self.pick(&shown))
    }

    /// The contacts, ranked by `recent` or by use, of which `limit` are
    /// shown.
    fn ranked(&self, by_time: bool, limit: i64) -> (v: Vec<Contact>)
        ensures
            contact_models(v@) == self@.listing(
                everyone(),
                if by_time {
                    last_used_first()
                } else {
                    most_used_first()
                },
                limit as int,
            ),
    {
        let ghost key = if by_time {
            last_used_first()
        } else {
            most_used_first()
        };
        let mut kept: Vec<bool> = Vec::new();
        let mut keys: Vec<SortKey> = Vec::new();
        let mut i: usize = 0;
        while i < self.rows.len()
            invariant
                i <= self.rows.len(),
                key == if by_time {
                    last_used_first()
                } else {
                    most_used_first()
                },
                kept.len() == i,
                keys.len() == i,
                forall|j: int| 0 <= j < i ==> #[trigger] kept@[j] == (everyone())(self@.rows[j]),
                forall|j: int| 0 <= j < i ==> (#[trigger] keys@[j])@ == key(self@.rows[j]),
            decreases self.rows.len() - i,
        {
            let row = &self.rows[i];
            proof {
                assert(self@.rows[i as int] == row@);
            }
            kept.push(true);
            if by_time {
                keys.push(SortKey { major: row.last_used, minor: 0, text: Vec::new() });
            } else {
                keys.push(SortKey { major: row.use_count, minor: row.last_used, text: Vec::new() });
            }
            i += 1;
        }
        let shown = arrange_rows::<ContactModel>(
            Ghost(self@.rows),
            Ghost(everyone()),
            Ghost(key),
            &kept,
            &keys,
            limit,
            0,
        );
        self.pick(&shown)
    }

    /// The `limit` contacts that were used last, the last one first. A
    /// negative `limit` shows all.
    pub fn get_recent_contacts(&self, limit: i64) -> (r: Result<Vec<Contact>, DEmailError>)
        ensures
            r matches Ok(v) && contact_models(v@) == self@.listing(
                everyone(),
                last_used_first(),
                limit as int,
            ),
    {
        Ok(self.ranked(true, limit))
    }

    /// The `limit` contacts that were used most, the most used first. A
    /// negative `limit` shows all.
    pub fn get_frequent_contacts(&self, limit: i64) -> (r: Result<Vec<Contact>, DEmailError>)
        ensures
            r matches Ok(v) && contact_models(v@) == self@.listing(
                everyone(),
                most_used_first(),
                limit as int,
            ),
    {
        Ok(self.ranked(false, limit))
    }
}

/// The identifier of a contact, as a function.
pub open spec fn contact_ids() -> spec_fn(ContactModel) -> i64 {
    |c: ContactModel| c.id
}

/// Whether rows can be the rows of an address book: their identifiers are
/// valid, and no address occurs twice.
pub open spec fn restorable_contacts(rows: Seq<ContactModel>) -> bool {
    &&& valid_ids(rows.map_values(contact_ids()))
    &&& forall|i: int, j: int|
        0 <= i < rows.len() && 0 <= j < rows.len() && i != j ==> (#[trigger] rows[i]).email != (
        #[trigger] rows[j]).email
}

impl ContactBook {
    /// The contacts, in the order in which they were first seen.
    pub fn rows(&self) -> (r: &Vec<Contact>)
        ensures
            contact_models(r@) == self@.rows,
    {
        &self.rows
    }

    /// The book that holds `rows`; `None` where the rows cannot be those of
    /// a book.
    pub fn restore(rows: Vec<Contact>) -> (r: Option<ContactBook>)
        ensures
            match r {
                Some(b) => {
                    &&& restorable_contacts(contact_models(rows@))
                    &&& b.wf()
                    &&& b@.rows == contact_models(rows@)
                    &&& b@.next_id == next_after(contact_models(rows@).map_values(contact_ids()))
                },
                None => !restorable_contacts(contact_models(rows@)),
            },
    {
        let ghost models = contact_models(rows@);
        let mut ids: Vec<i64> = Vec::new();
        let mut i: usize = 0;
        while i < rows.len()
            invariant
                i <= rows.len(),
                models == contact_models(rows@),
                ids.len() == i,
                forall|a: int| 0 <= a < i ==> #[trigger] ids@[a] == models[a].id,
                forall|a: int, b: int|
                    0 <= a < i && 0 <= b < i && a != b ==> (#[trigger] models[a]).email != (
                    #[trigger] models[b]).email,
            decreases rows.len() - i,
        {
            let mut k: usize = 0;
            while k < i
                invariant
                    k <= i < rows.len(),
                    models == contact_models(rows@),
                    forall|a: int| 0 <= a < k ==> (#[trigger] models[a]).email != models[i as int].email,
                decreases i - k,
            {
                proof {
                    assert(models[k as int] == rows@[k as int]@);
                    assert(models[i as int] == rows@[i as int]@);
                }
                if str_equal(rows[k].email.as_str(), rows[i].email.as_str()) {
                    return None;
                }
                k += 1;
            }
            proof {
                assert(models[i as int] == rows@[i as int]@);
            }
            ids.push(rows[i].id);
            i += 1;
        }
        proof {
            assert(ids@ =~= models.map_values(contact_ids()));
        }
        match next_identifier(&ids) {
            Some(next_id) => {
                let b = ContactBook { rows, next_id };
                proof {
                    assert(b@.rows == models);
                    assert forall|a: int| 0 <= a < models.len() implies 1 <= (
                    #[trigger] b@.rows[a]).id < b@.next_id by {
                        assert(ids@[a] == models[a].id);
                    }
                    assert forall|a: int, c: int|
                        0 <= a < models.len() && 0 <= c < models.len() && a != c implies (
                    #[trigger] b@.rows[a]).id != (#[trigger] b@.rows[c]).id by {
                        assert(ids@[a] == models[a].id);
                        assert(ids@[c] == models[c].id);
                    }
                }
                Some(b)
            },
            None => None,
        }
    }
}

/// Address fields that hold one entry between them are observed as that
/// entry.
pub proof fn lemma_one_entry(
    book: ContactBookModel,
    from: Seq<char>,
    to: Seq<char>,
    cc: Option<Seq<char>>,
    entry: Seq<char>,
    now: i64,
)
    requires
        list_entries(from) == seq![entry],
        list_entries(to).len() == 0,
        cc matches Some(c) ==> list_entries(c).len() == 0,
    ensures
        book.observe_entries(header_entries(from, to, cc), 0, now) == book.observe_entry(entry, now),
{
    let all = header_entries(from, to, cc);
    assert(all =~= seq![entry]);
    let (next, ok) = book.observe_entry(entry, now);
    assert(next.observe_entries(all, 1, now) == (next, true));
}

/// A sender that the address rule accepts, observed twice as the only
/// address of a message, is one contact with a count of 2, last used at the
/// second time, under the name that was given, where the address was
/// unknown before and an identifier is left for it.
pub proof fn law_sender_observed_twice(
    book: ContactBookModel,
    from: Seq<char>,
    to: Seq<char>,
    entry: Seq<char>,
    first_time: i64,
    second_time: i64,
)
    requires
        book.wf(),
        list_entries(from) == seq![entry],
        list_entries(to).len() == 0,
        parse_address(entry) matches Some(p) && p.email.len() > 0 && validator_accepts_email(
            p.email,
        ) && book.lookup(p.email) is None,
        book.next_id < i64::MAX,
    ensures
        ({
            let p = parse_address(entry).unwrap();
            let (once, first) = book.observe_entries(
                header_entries(from, to, None),
                0,
                first_time,
            );
            let (twice, second) = once.observe_entries(
                header_entries(from, to, None),
                0,
                second_time,
            );
            &&& first && second
            &&& twice.rows.len() == book.rows.len() + 1
            &&& twice.lookup(p.email) matches Some(c) && c.use_count == 2 && c.last_used
                == second_time && c.name == p.name
        }),
{
    let p = parse_address(entry).unwrap();
    lemma_one_entry(book, from, to, None, entry, first_time);
    let once = book.observe(p.email, p.name, first_time).0;
    if book.find(p.email) is Some {
        assert(book.holds(book.find(p.email).unwrap(), p.email));
    }
    lemma_one_entry(once, from, to, None, entry, second_time);
    lemma_observe_wf(book, p.email, p.name, first_time);
    lemma_observe_lookup(book, p.email, p.name, first_time);
    lemma_observe_lookup(once, p.email, p.name, second_time);
    law_observed_twice(book, p.email, p.name, p.name, first_time, second_time);
    assert(once.find(p.email) is Some);
}

/// A known sender that the address rule accepts, observed without a name,
/// keeps the name that it has, is counted once more and was last used at
/// the time of the observation.
pub proof fn law_sender_without_name_keeps_name(
    book: ContactBookModel,
    from: Seq<char>,
    to: Seq<char>,
    entry: Seq<char>,
    now: i64,
)
    requires
        book.wf(),
        list_entries(from) == seq![entry],
        list_entries(to).len() == 0,
        parse_address(entry) matches Some(p) && p.email.len() > 0 && validator_accepts_email(
            p.email,
        ) && !names_someone(p.name) && book.lookup(p.email) is Some,
    ensures
        ({
            let p = parse_address(entry).unwrap();
            let known = book.lookup(p.email).unwrap();
            let (after, recorded) = book.observe_entries(header_entries(from, to, None), 0, now);
            &&& recorded
            &&& after.rows.len() == book.rows.len()
            &&& after.lookup(p.email) matches Some(c) && c.name == known.name && c.use_count
                == bump(known.use_count) && c.last_used == now
        }),
{
    let p = parse_address(entry).unwrap();
    lemma_one_entry(book, from, to, None, entry, now);
    assert(book.find(p.email) is Some);
    assert(book.holds(book.find(p.email).unwrap(), p.email));
    lemma_observe_lookup(book, p.email, p.name, now);
}

} // verus!
