//! Conversations: the normal form of a subject, its hash, and the table that
//! groups the messages of an account by it.

use crate::error::{DEmailError, ErrorKind};
use crate::models::{Thread, ThreadModel};
use crate::numfmt::{lower_hex, lower_hex_of};
use crate::table::{
    lemma_retained, lemma_retained_empty, lemma_retained_push, next_after, next_identifier,
    retained, valid_ids,
};
use crate::text::str_equal;
use crate::text::{chars_of, find_class, find_from, lemma_skip_from_bounds, lowercase, lowercase_of, same_text, slice_of, starts_with, string_of, trim, trim_of, trim_start, CharClass};
use std::collections::hash_map::DefaultHasher;
use std::hash::Hasher;
use vstd::prelude::*;
use vstd::std_specs::hash::DefaultHasherAdditionalSpecFns;
use vstd::string::StringExecFns;
use vstd::string::StringSliceAdditionalSpecFns;

verus! {

/// What is left of `s` when one prefix is taken from its start, with the
/// whitespace that follows the prefix: `re:`, `fwd:`, `fw:`, or a tag in
/// square brackets. `None` where `s` starts with none of them.
pub open spec fn strip_prefix(s: Seq<char>) -> Option<Seq<char>> {
    if seq!['r', 'e', ':'].is_prefix_of(s) {
        Some(trim_start(s.skip(3)))
    } else if seq!['f', 'w', 'd', ':'].is_prefix_of(s) {
        Some(trim_start(s.skip(4)))
    } else if seq!['f', 'w', ':'].is_prefix_of(s) {
        Some(trim_start(s.skip(3)))
    } else if s.len() > 0 && s[0] == '[' && find_from(s, CharClass::Is(']'), 0) < s.len() {
        Some(trim_start(s.skip(find_from(s, CharClass::Is(']'), 0) + 1)))
    } else {
        None
    }
}

/// Taking a prefix away makes the text shorter.
pub proof fn lemma_strip_prefix_shortens(s: Seq<char>)
    ensures
        strip_prefix(s) matches Some(t) ==> t.len() < s.len(),
{
    if seq!['r', 'e', ':'].is_prefix_of(s) {
        lemma_skip_from_bounds(s.skip(3), CharClass::Whitespace, 0);
    } else if seq!['f', 'w', 'd', ':'].is_prefix_of(s) {
        lemma_skip_from_bounds(s.skip(4), CharClass::Whitespace, 0);
    } else if seq!['f', 'w', ':'].is_prefix_of(s) {
        lemma_skip_from_bounds(s.skip(3), CharClass::Whitespace, 0);
    } else if s.len() > 0 && s[0] == '[' && find_from(s, CharClass::Is(']'), 0) < s.len() {
        let cut = find_from(s, CharClass::Is(']'), 0);
        crate::text::lemma_find_from_bounds(s, CharClass::Is(']'), 0);
        lemma_skip_from_bounds(s.skip(cut + 1), CharClass::Whitespace, 0);
    }
}

/// `s` with every reply, forward and list prefix taken from its start.
pub open spec fn strip_prefixes(s: Seq<char>) -> Seq<char>
    decreases s.len(),
    via strip_prefixes_decreases
{
    match strip_prefix(s) {
        Some(t) => strip_prefixes(t),
        None => s,
    }
}

#[via_fn]
proof fn strip_prefixes_decreases(s: Seq<char>) {
    lemma_strip_prefix_shortens(s);
}

/// The normal form of a subject: trimmed of whitespace, put in lower case,
/// and freed of its reply, forward and list prefixes.
pub open spec fn normal_subject(subject: Seq<char>) -> Seq<char> {
    strip_prefixes(lowercase_of(trim(subject)))
}

fn literal(a: char, b: char, c: char) -> (r: Vec<char>)
    ensures
        r@ == seq![a, b, c],
{
    let mut r: Vec<char> = Vec::new();
    r.push(a);
    r.push(b);
    r.push(c);
    r
}

/// One prefix taken from the start of `s`, if it has one.
pub fn strip_prefix_of(s: &Vec<char>) -> (r: Option<Vec<char>>)
    ensures
        match r {
            Some(t) => strip_prefix(s@) == Some(t@),
            None => strip_prefix(s@) is None,
        },
{
    let re = literal('r', 'e', ':');
    let fw = literal('f', 'w', ':');
    let mut fwd = literal('f', 'w', 'd');
    fwd.push(':');
    proof {
        assert(fwd@ == seq!['f', 'w', 'd', ':']);
    }
    let cut: usize = if starts_with(s, &re) {
        3
    } else if starts_with(s, &fwd) {
        4
    } else if starts_with(s, &fw) {
        3
    } else if s.len() > 0 && s[0] == '[' {
        let close: usize = find_class(s, CharClass::Is(']'), 0);
        if close >= s.len() {
            return None;
        }
        close + 1
    } else {
        return None;
    };
    let rest = slice_of(s, cut, s.len());
    proof {
        assert(rest@ == s@.skip(cut as int));
    }
    Some(crate::text::trim_start_of(&rest))
}

/// The subject `lowered`, which is trimmed and in lower case, without its
/// reply, forward and list prefixes.
pub fn strip_prefixes_of(lowered: &str) -> (r: String)
    ensures
        r@ == strip_prefixes(lowered@),
{
    let mut current = chars_of(lowered);
    loop
        invariant_except_break
            strip_prefixes(lowered@) == strip_prefixes(current@),
        ensures
            current@ == strip_prefixes(lowered@),
        decreases current.len(),
    {
        proof {
            lemma_strip_prefix_shortens(current@);
        }
        match strip_prefix_of(&current) {
            Some(rest) => {
                current = rest;
            },
            None => {
                break;
            },
        }
    }
    string_of(&current)
}

/// The normal form of a subject, by which messages are grouped.
pub fn normalize_subject(subject: &str) -> (r: String)
    ensures
        r@ == normal_subject(subject@),
{
    let trimmed = string_of(&trim_of(&chars_of(subject)));
    let lowered = lowercase(trimmed.as_str());
    strip_prefixes_of(lowered.as_str())
}

/// The number that the standard hasher gives a text: the hash of its UTF-8
/// bytes followed by the byte `0xff`.
pub open spec fn text_hash(s: Seq<char>) -> u64 {
    DefaultHasher::spec_finish(seq![vstd::utf8::encode_utf8(s), seq![0xffu8]])
}

/// The hash of a subject as text: [`text_hash`] in hexadecimal.
pub open spec fn subject_hash(subject: Seq<char>) -> Seq<char> {
    lower_hex(text_hash(subject) as nat)
}

/// The hash of a normalized subject, which keys its thread.
pub fn calculate_subject_hash(subject: &str) -> (r: String)
    ensures
        r@ == subject_hash(subject@),
{
    let mut hasher = DefaultHasher::new();
    hasher.write(subject.as_bytes());
    let end: [u8; 1] = [0xff];
    hasher.write(end.as_slice());
    proof {
        assert(end@ =~= seq![0xffu8]);
        assert(hasher@ =~= seq![vstd::utf8::encode_utf8(subject@), seq![0xffu8]]);
    }
    string_of(&lower_hex_of(hasher.finish()))
}

/// The key of the thread that a message with this subject belongs to, within
/// its account.
pub open spec fn thread_key(subject: Seq<char>) -> Seq<char> {
    subject_hash(normal_subject(subject))
}

/// The threads of all accounts, as rows in the order in which they were
/// made, with the identifier that the next new thread gets.
pub struct ThreadTableModel {
    pub rows: Seq<ThreadModel>,
    pub next_id: int,
}

/// `count` and one more, held at the largest number.
pub open spec fn bump(count: i64) -> i64 {
    if count < i64::MAX {
        (count + 1) as i64
    } else {
        count
    }
}

impl ThreadTableModel {
    /// Whether row `i` is the thread of `account_id` with key `key`.
    pub open spec fn holds(self, i: int, account_id: i64, key: Seq<char>) -> bool {
        0 <= i < self.rows.len() && self.rows[i].account_id == account_id
            && self.rows[i].subject_hash == key
    }

    /// Identifiers start at 1, lie below `next_id` and occur once, and an
    /// account has at most one thread with a given key.
    pub open spec fn wf(self) -> bool {
        &&& 1 <= self.next_id <= i64::MAX
        &&& forall|i: int| 0 <= i < self.rows.len() ==> 1 <= (#[trigger] self.rows[i]).id < self.next_id
        &&& forall|i: int, j: int|
            0 <= i < self.rows.len() && 0 <= j < self.rows.len() && i != j ==> (
            #[trigger] self.rows[i]).id != (#[trigger] self.rows[j]).id
        &&& forall|i: int, j: int|
            0 <= i < self.rows.len() && 0 <= j < self.rows.len() && i != j ==> !((
            #[trigger] self.rows[i]).account_id == (#[trigger] self.rows[j]).account_id
                && self.rows[i].subject_hash == self.rows[j].subject_hash)
    }

    /// The index of the thread of `account_id` with key `key`.
    pub open spec fn find(self, account_id: i64, key: Seq<char>) -> Option<int> {
        if exists|i: int| self.holds(i, account_id, key) {
            Some(choose|i: int| self.holds(i, account_id, key))
        } else {
            None
        }
    }

    /// The table after a message was classified under `key` in `account_id`,
    /// and the identifier of its thread. Where the account has a thread with
    /// that key, the message becomes its last one and is counted; otherwise
    /// a thread is made that holds the message alone. `None`, and no change,
    /// where a thread is to be made and no identifier is left.
    pub open spec fn classify(self, account_id: i64, key: Seq<char>, message_id: i64, now: i64) -> (
        ThreadTableModel,
        Option<i64>,
    ) {
        match self.find(account_id, key) {
            Some(i) => (
                ThreadTableModel {
                    rows: self.rows.update(
                        i,
                        ThreadModel {
                            last_message_id: message_id,
                            message_count: bump(self.rows[i].message_count),
                            updated_at: now,
                            ..self.rows[i]
                        },
                    ),
                    ..self
                },
                Some(self.rows[i].id),
            ),
            None => if self.next_id < i64::MAX {
                (
                    ThreadTableModel {
                        rows: self.rows.push(
                            ThreadModel {
                                id: self.next_id as i64,
                                subject_hash: key,
                                first_message_id: message_id,
                                last_message_id: message_id,
                                message_count: 1,
                                account_id,
                                created_at: now,
                                updated_at: now,
                            },
                        ),
                        next_id: self.next_id + 1,
                    },
                    Some(self.next_id as i64),
                )
            } else {
                (self, None)
            },
        }
    }

    /// The thread with identifier `thread_id`.
    pub open spec fn get(self, thread_id: i64) -> Option<ThreadModel> {
        if exists|i: int| 0 <= i < self.rows.len() && self.rows[i].id == thread_id {
            Some(self.rows[choose|i: int| 0 <= i < self.rows.len() && self.rows[i].id == thread_id])
        } else {
            None
        }
    }
}

/// Classifying keeps the table well formed.
pub proof fn lemma_classify_wf(
    t: ThreadTableModel,
    account_id: i64,
    key: Seq<char>,
    message_id: i64,
    now: i64,
)
    requires
        t.wf(),
    ensures
        t.classify(account_id, key, message_id, now).0.wf(),
{
    let after = t.classify(account_id, key, message_id, now).0;
    match t.find(account_id, key) {
        Some(i) => {
            assert(t.holds(i, account_id, key));
            assert forall|a: int, b: int|
                0 <= a < after.rows.len() && 0 <= b < after.rows.len() && a != b implies !((
                #[trigger] after.rows[a]).account_id == (#[trigger] after.rows[b]).account_id
                    && after.rows[a].subject_hash == after.rows[b].subject_hash) by {
                assert(after.rows[a].account_id == t.rows[a].account_id);
                assert(after.rows[b].account_id == t.rows[b].account_id);
                assert(after.rows[a].subject_hash == t.rows[a].subject_hash);
                assert(after.rows[b].subject_hash == t.rows[b].subject_hash);
            }
            assert forall|a: int, b: int|
                0 <= a < after.rows.len() && 0 <= b < after.rows.len() && a != b implies (
                #[trigger] after.rows[a]).id != (#[trigger] after.rows[b]).id by {
                assert(after.rows[a].id == t.rows[a].id);
                assert(after.rows[b].id == t.rows[b].id);
            }
            assert forall|a: int| 0 <= a < after.rows.len() implies 1 <= (
            #[trigger] after.rows[a]).id < after.next_id by {
                assert(after.rows[a].id == t.rows[a].id);
            }
        },
        None => {
            if t.next_id < i64::MAX {
                assert forall|a: int, b: int|
                    0 <= a < after.rows.len() && 0 <= b < after.rows.len() && a != b implies !((
                    #[trigger] after.rows[a]).account_id == (#[trigger] after.rows[b]).account_id
                        && after.rows[a].subject_hash == after.rows[b].subject_hash) by {
                    if a < t.rows.len() && b < t.rows.len() {
                        assert(after.rows[a] == t.rows[a]);
                        assert(after.rows[b] == t.rows[b]);
                    } else if a < t.rows.len() {
                        assert(!t.holds(a, account_id, key));
                    } else {
                        assert(!t.holds(b, account_id, key));
                    }
                }
                assert forall|a: int, b: int|
                    0 <= a < after.rows.len() && 0 <= b < after.rows.len() && a != b implies (
                    #[trigger] after.rows[a]).id != (#[trigger] after.rows[b]).id by {
                    if a < t.rows.len() {
                        assert(after.rows[a] == t.rows[a]);
                    }
                    if b < t.rows.len() {
                        assert(after.rows[b] == t.rows[b]);
                    }
                }
                assert forall|a: int| 0 <= a < after.rows.len() implies 1 <= (
                #[trigger] after.rows[a]).id < after.next_id by {
                    if a < t.rows.len() {
                        assert(after.rows[a] == t.rows[a]);
                    }
                }
            }
        },
    }
}

/// Two messages of one account whose subjects have the same normal form
/// come to the same thread: classifying the second, directly after the
/// first, returns the identifier that the first got.
pub proof fn law_same_subject_same_thread(
    t: ThreadTableModel,
    account_id: i64,
    first_subject: Seq<char>,
    second_subject: Seq<char>,
    first_message: i64,
    second_message: i64,
    first_time: i64,
    second_time: i64,
)
    requires
        t.wf(),
        normal_subject(first_subject) == normal_subject(second_subject),
        t.classify(account_id, thread_key(first_subject), first_message, first_time).1 is Some,
    ensures
        ({
            let (after, first) = t.classify(
                account_id,
                thread_key(first_subject),
                first_message,
                first_time,
            );
            after.classify(account_id, thread_key(second_subject), second_message, second_time).1
                == first
        }),
{
    let key = thread_key(first_subject);
    let (after, first) = t.classify(account_id, key, first_message, first_time);
    lemma_classify_wf(t, account_id, key, first_message, first_time);
    match t.find(account_id, key) {
        Some(i) => {
            assert(t.holds(i, account_id, key));
            assert(after.holds(i, account_id, key));
            let k = after.find(account_id, key).unwrap();
            assert(after.holds(k, account_id, key));
            assert(k == i);
        },
        None => {
            let n = t.rows.len() as int;
            assert(after.holds(n, account_id, key));
            let k = after.find(account_id, key).unwrap();
            assert(after.holds(k, account_id, key));
            assert(k == n);
        },
    }
}

/// A subject under a different account never shares a thread: whatever the
/// subjects, the threads of two messages of different accounts differ.
pub proof fn law_accounts_never_share(
    t: ThreadTableModel,
    first_account: i64,
    second_account: i64,
    first_key: Seq<char>,
    second_key: Seq<char>,
    first_message: i64,
    second_message: i64,
    first_time: i64,
    second_time: i64,
)
    requires
        t.wf(),
        first_account != second_account,
    ensures
        ({
            let (after, first) = t.classify(first_account, first_key, first_message, first_time);
            let second = after.classify(second_account, second_key, second_message, second_time).1;
            first is Some && second is Some ==> first != second
        }),
{
    let (after, first) = t.classify(first_account, first_key, first_message, first_time);
    let second = after.classify(second_account, second_key, second_message, second_time).1;
    lemma_classify_wf(t, first_account, first_key, first_message, first_time);
    if first is Some && second is Some {
        // the row that holds the first message's thread
        let a: int = match t.find(first_account, first_key) {
            Some(i) => i,
            None => t.rows.len() as int,
        };
        if t.find(first_account, first_key) is Some {
            assert(t.holds(a, first_account, first_key));
        }
        assert(after.holds(a, first_account, first_key));
        assert(after.rows[a].id == first.unwrap());
        match after.find(second_account, second_key) {
            Some(b) => {
                assert(after.holds(b, second_account, second_key));
                assert(a != b);
            },
            None => {},
        }
    }
}

/// The threads of all accounts.
pub struct ThreadTable {
    rows: Vec<Thread>,
    next_id: i64,
}

impl View for ThreadTable {
    type V = ThreadTableModel;

    closed spec fn view(&self) -> ThreadTableModel {
        ThreadTableModel {
            rows: self.rows@.map_values(|t: Thread| t@),
            next_id: self.next_id as int,
        }
    }
}

impl ThreadTable {
    /// Whether the table is well formed, as every table made by [`Self::new`]
    /// and changed by the methods of this type is.
    pub open spec fn wf(&self) -> bool {
        self@.wf()
    }

    /// The empty table.
    pub fn new() -> (t: ThreadTable)
        ensures
            t.wf(),
            t@.rows.len() == 0,
            t@.next_id == 1,
    {
        ThreadTable { rows: Vec::new(), next_id: 1 }
    }

    /// The number of threads.
    pub fn len(&self) -> (n: usize)
        ensures
            n == self@.rows.len(),
    {
        self.rows.len()
    }

    fn position(&self, account_id: i64, key: &Vec<char>) -> (r: Option<usize>)
        requires
            self.wf(),
        ensures
            match r {
                Some(i) => self@.find(account_id, key@) == Some(i as int) && i < self.rows.len(),
                None => self@.find(account_id, key@) is None,
            },
    {
        let mut i: usize = 0;
        while i < self.rows.len()
            invariant
                i <= self.rows.len(),
                self.wf(),
                forall|j: int| 0 <= j < i ==> !self@.holds(j, account_id, key@),
            decreases self.rows.len() - i,
        {
            let row = &self.rows[i];
            if row.account_id == account_id && same_text(&chars_of(row.subject_hash.as_str()), key) {
                proof {
                    assert(self@.holds(i as int, account_id, key@));
                    let k = choose|k: int| self@.holds(k, account_id, key@);
                    assert(self@.holds(k, account_id, key@));
                    assert(k == i);
                }
                return Some(i);
            }
            i += 1;
        }
        None
    }

    /// Classifies a message of `account_id` with the subject `subject`: the
    /// message joins the thread of its account whose key is the hash of the
    /// subject's normal form, or founds that thread. Returns the thread's
    /// identifier, or a database error, with the table unchanged, where a
    /// thread is to be made and no identifier is left.
    pub fn classify(&mut self, account_id: i64, subject: &str, message_id: i64, now: i64) -> (r:
        Result<i64, DEmailError>)
        requires
            old(self).wf(),
        ensures
            final(self).wf(),
            ({
                let (after, id) = old(self)@.classify(
                    account_id,
                    thread_key(subject@),
                    message_id,
                    now,
                );
                &&& final(self)@ == after
                &&& match r {
                    Ok(t) => id == Some(t),
                    Err(e) => id is None && e@.kind == ErrorKind::Database,
                }
            }),
    {
        let normalized = normalize_subject(subject);
        let hash = calculate_subject_hash(normalized.as_str());
        let key = chars_of(hash.as_str());
        proof {
            lemma_classify_wf(self@, account_id, key@, message_id, now);
        }
        match self.position(account_id, &key) {
            Some(i) => {
                let row = &self.rows[i];
                let id = row.id;
                let count: i64 = if row.message_count < i64::MAX {
                    row.message_count + 1
                } else {
                    row.message_count
                };
                let touched = Thread {
                    id: row.id,
                    subject_hash: row.subject_hash.clone(),
                    first_message_id: row.first_message_id,
                    last_message_id: message_id,
                    message_count: count,
                    account_id: row.account_id,
                    created_at: row.created_at,
                    updated_at: now,
                };
                let ghost before = self@;
                self.rows.set(i, touched);
                proof {
                    assert(self@.rows =~= before.rows.update(i as int, touched@));
                }
                Ok(id)
            },
            None => {
                if self.next_id == i64::MAX {
                    return Err(
                        DEmailError::Database(String::from_str("no thread identifier is left")),
                    );
                }
                let id = self.next_id;
                let made = Thread {
                    id,
                    subject_hash: hash,
                    first_message_id: message_id,
                    last_message_id: message_id,
                    message_count: 1,
                    account_id,
                    created_at: now,
                    updated_at: now,
                };
                let ghost before = self@;
                self.rows.push(made);
                self.next_id = id + 1;
                proof {
                    assert(self@.rows =~= before.rows.push(made@));
                }
                Ok(id)
            },
        }
    }

    /// The thread with identifier `thread_id`.
    pub fn get(&self, thread_id: i64) -> (r: Option<Thread>)
        requires
            self.wf(),
        ensures
            match r {
                Some(t) => self@.get(thread_id) == Some(t@),
                None => self@.get(thread_id) is None,
            },
    {
        let mut i: usize = 0;
        while i < self.rows.len()
            invariant
                i <= self.rows.len(),
                self.wf(),
                forall|j: int| 0 <= j < i ==> self@.rows[j].id != thread_id,
            decreases self.rows.len() - i,
        {
            if self.rows[i].id == thread_id {
                proof {
                    assert(self@.rows[i as int].id == thread_id);
                    let k = choose|k: int| 0 <= k < self@.rows.len() && self@.rows[k].id == thread_id;
                    assert(k == i);
                }
                return Some(self.rows[i].clone());
            }
            i += 1;
        }
        None
    }
}

/// The threads of other accounts than `account_id`.
pub open spec fn thread_of_other_account(account_id: i64) -> spec_fn(ThreadModel) -> bool {
    |t: ThreadModel| t.account_id != account_id
}

impl ThreadTableModel {
    /// The table without the threads of the account `account_id`.
    pub open spec fn without_account(self, account_id: i64) -> ThreadTableModel {
        ThreadTableModel { rows: retained(self.rows, thread_of_other_account(account_id)), ..self }
    }
}

/// Taking the threads of an account away keeps the table well formed.
pub proof fn lemma_threads_without_account_wf(t: ThreadTableModel, account_id: i64)
    requires
        t.wf(),
    ensures
        t.without_account(account_id).wf(),
{
    let after = t.without_account(account_id);
    let keep = thread_of_other_account(account_id);
    let apart = |a: ThreadModel, b: ThreadModel|
        a.id != b.id && !(a.account_id == b.account_id && a.subject_hash == b.subject_hash);
    assert forall|i: int, j: int|
        0 <= i < t.rows.len() && 0 <= j < t.rows.len() && i != j implies apart(
        #[trigger] t.rows[i],
        #[trigger] t.rows[j],
    ) by {
        assert(t.rows[i].id != t.rows[j].id);
    }
    lemma_retained(t.rows, keep, apart);
    assert forall|i: int| 0 <= i < after.rows.len() implies 1 <= (#[trigger] after.rows[i]).id
        < after.next_id by {
        assert(t.rows.contains(after.rows[i]));
        let k = choose|k: int| 0 <= k < t.rows.len() && t.rows[k] == after.rows[i];
        assert(1 <= t.rows[k].id < t.next_id);
    }
    assert forall|a: int, b: int|
        0 <= a < after.rows.len() && 0 <= b < after.rows.len() && a != b implies (
    #[trigger] after.rows[a]).id != (#[trigger] after.rows[b]).id && !(after.rows[a].account_id
        == after.rows[b].account_id && after.rows[a].subject_hash
        == after.rows[b].subject_hash) by {
        assert(apart(after.rows[a], after.rows[b]));
    }
}

impl ThreadTable {
    /// Takes away the threads of the account `account_id`.
    pub fn remove_account(&mut self, account_id: i64)
        requires
            old(self).wf(),
        ensures
            final(self).wf(),
            final(self)@ == old(self)@.without_account(account_id),
    {
        let ghost before = self@;
        proof {
            lemma_threads_without_account_wf(before, account_id);
        }
        let mut rows: Vec<Thread> = Vec::new();
        let mut i: usize = 0;
        proof {
            assert(before.rows.take(0) =~= Seq::<ThreadModel>::empty());
            lemma_retained_empty(thread_of_other_account(account_id));
            assert(rows@.map_values(|t: Thread| t@) =~= Seq::<ThreadModel>::empty());
        }
        while i < self.rows.len()
            invariant
                i <= self.rows.len(),
                before == self@,
                rows@.map_values(|t: Thread| t@) == retained(
                    before.rows.take(i as int),
                    thread_of_other_account(account_id),
                ),
            decreases self.rows.len() - i,
        {
            let row = &self.rows[i];
            proof {
                assert(before.rows[i as int] == row@);
                assert(before.rows.take(i + 1) =~= before.rows.take(i as int).push(row@));
                lemma_retained_push(
                    before.rows.take(i as int),
                    thread_of_other_account(account_id),
                    row@,
                );
            }
            if row.account_id != account_id {
                let copy = row.clone();
                proof {
                    assert(rows@.push(copy).map_values(|t: Thread| t@) =~= rows@.map_values(
                        |t: Thread| t@,
                    ).push(copy@));
                }
                rows.push(copy);
            }
            i += 1;
        }
        proof {
            assert(before.rows.take(self.rows.len() as int) =~= before.rows);
        }
        self.rows = rows;
    }
}

impl ThreadTableModel {
    /// The identifier of the thread of `account_id` with key `key`.
    pub open spec fn thread_for(self, account_id: i64, key: Seq<char>) -> Option<i64> {
        match self.find(account_id, key) {
            Some(i) => Some(self.rows[i].id),
            None => None,
        }
    }
}

impl ThreadTable {
    /// The identifier of the thread that a message of `account_id` with the
    /// subject `subject` belongs to, if the account has that thread.
    pub fn thread_for(&self, account_id: i64, subject: &str) -> (r: Option<i64>)
        requires
            self.wf(),
        ensures
            r == self@.thread_for(account_id, thread_key(subject@)),
    {
        let normalized = normalize_subject(subject);
        let hash = calculate_subject_hash(normalized.as_str());
        let key = chars_of(hash.as_str());
        match self.position(account_id, &key) {
            Some(i) => {
                proof {
                    assert(self@.rows[i as int] == self.rows@[i as int]@);
                }
                Some(self.rows[i].id)
            },
            None => None,
        }
    }
}

/// The identifier of a thread, as a function.
pub open spec fn thread_ids() -> spec_fn(ThreadModel) -> i64 {
    |t: ThreadModel| t.id
}

/// The models of the threads that a vector holds.
pub open spec fn thread_models(v: Seq<Thread>) -> Seq<ThreadModel> {
    v.map_values(|t: Thread| t@)
}

/// Whether rows can be the rows of a table of threads: their identifiers
/// are valid, and no account has two threads with one key.
pub open spec fn restorable_threads(rows: Seq<ThreadModel>) -> bool {
    &&& valid_ids(rows.map_values(thread_ids()))
    &&& forall|i: int, j: int|
        0 <= i < rows.len() && 0 <= j < rows.len() && i != j ==> !((#[trigger] rows[i]).account_id
            == (#[trigger] rows[j]).account_id && rows[i].subject_hash == rows[j].subject_hash)
}

impl ThreadTable {
    /// The rows of the table, in their order.
    pub fn rows(&self) -> (r: &Vec<Thread>)
        ensures
            thread_models(r@) == self@.rows,
    {
        &self.rows
    }

    /// The table that holds `rows`; `None` where the rows cannot be those of
    /// a table.
    pub fn restore(rows: Vec<Thread>) -> (r: Option<ThreadTable>)
        ensures
            match r {
                Some(t) => {
                    &&& restorable_threads(thread_models(rows@))
                    &&& t.wf()
                    &&& t@.rows == thread_models(rows@)
                    &&& t@.next_id == next_after(thread_models(rows@).map_values(thread_ids()))
                },
                None => !restorable_threads(thread_models(rows@)),
            },
    {
        let ghost models = thread_models(rows@);
        let mut ids: Vec<i64> = Vec::new();
        let mut i: usize = 0;
        while i < rows.len()
            invariant
                i <= rows.len(),
                models == thread_models(rows@),
                ids.len() == i,
                forall|a: int| 0 <= a < i ==> #[trigger] ids@[a] == models[a].id,
                forall|a: int, b: int|
                    0 <= a < i && 0 <= b < i && a != b ==> !((#[trigger] models[a]).account_id == (
                    #[trigger] models[b]).account_id && models[a].subject_hash
                        == models[b].subject_hash),
            decreases rows.len() - i,
        {
            let mut k: usize = 0;
            while k < i
                invariant
                    k <= i < rows.len(),
                    models == thread_models(rows@),
                    forall|a: int|
                        0 <= a < k ==> !((#[trigger] models[a]).account_id
                            == models[i as int].account_id && models[a].subject_hash
                            == models[i as int].subject_hash),
                decreases i - k,
            {
                proof {
                    assert(models[k as int] == rows@[k as int]@);
                    assert(models[i as int] == rows@[i as int]@);
                }
                if rows[k].account_id == rows[i].account_id && str_equal(
                    rows[k].subject_hash.as_str(),
                    rows[i].subject_hash.as_str(),
                ) {
                    return None;
                }
                k += 1;
            }
            proof {
                assert(models[i as int] == rows@[i as int]@);
            }
            ids.push(rows[i].id);
            i += 1;
        }
        proof {
            assert(ids@ =~= models.map_values(thread_ids()));
        }
        match next_identifier(&ids) {
            Some(next_id) => {
                let t = ThreadTable { rows, next_id };
                proof {
                    assert(t@.rows == models);
                    assert forall|a: int| 0 <= a < models.len() implies 1 <= (
                    #[trigger] t@.rows[a]).id < t@.next_id by {
                        assert(ids@[a] == models[a].id);
                    }
                    assert forall|a: int, b: int|
                        0 <= a < models.len() && 0 <= b < models.len() && a != b implies (
                    #[trigger] t@.rows[a]).id != (#[trigger] t@.rows[b]).id by {
                        assert(ids@[a] == models[a].id);
                        assert(ids@[b] == models[b].id);
                    }
                }
                Some(t)
            },
            None => None,
        }
    }
}

/// A subject in normal form has no prefix left: taking the prefixes from it
/// again changes nothing.
pub proof fn law_normal_form_is_stable(s: Seq<char>)
    ensures
        strip_prefix(strip_prefixes(s)) is None,
        strip_prefixes(strip_prefixes(s)) == strip_prefixes(s),
    decreases s.len(),
{
    lemma_strip_prefix_shortens(s);
    match strip_prefix(s) {
        Some(t) => {
            law_normal_form_is_stable(t);
        },
        None => {},
    }
}

/// A reply prefix before a subject does not change its normal form: the
/// subject `re:`, whitespace, then `rest` has the normal form of `rest`
/// without the whitespace before it.
pub proof fn law_reply_prefix_is_dropped(rest: Seq<char>)
    ensures
        strip_prefixes(seq!['r', 'e', ':'] + rest) == strip_prefixes(trim_start(rest)),
{
    let s = seq!['r', 'e', ':'] + rest;
    assert(seq!['r', 'e', ':'].is_prefix_of(s));
    assert(s.skip(3) =~= rest);
}

/// A message of an account that has no thread for its subject gets a
/// thread of its own, where an identifier is left for it: the thread is
/// new, belongs to the account, holds the message alone, and every thread
/// that was there stays as it was.
pub proof fn law_new_thread_leaves_others(
    t: ThreadTableModel,
    account_id: i64,
    key: Seq<char>,
    message_id: i64,
    now: i64,
)
    requires
        t.wf(),
        t.find(account_id, key) is None,
        t.next_id < i64::MAX,
    ensures
        ({
            let (after, thread) = t.classify(account_id, key, message_id, now);
            &&& thread == Some(t.next_id as i64)
            &&& forall|i: int| 0 <= i < t.rows.len() ==> (#[trigger] t.rows[i]).id != thread.unwrap()
            &&& after.rows.len() == t.rows.len() + 1
            &&& forall|i: int| 0 <= i < t.rows.len() ==> #[trigger] after.rows[i] == t.rows[i]
            &&& after.get(thread.unwrap()) == Some(
                ThreadModel {
                    id: thread.unwrap(),
                    subject_hash: key,
                    first_message_id: message_id,
                    last_message_id: message_id,
                    message_count: 1,
                    account_id,
                    created_at: now,
                    updated_at: now,
                },
            )
        }),
{
    let (after, thread) = t.classify(account_id, key, message_id, now);
    lemma_classify_wf(t, account_id, key, message_id, now);
    let n = t.rows.len() as int;
    let id = t.next_id as i64;
    assert(after.rows[n].id == id);
    let k = choose|k: int| 0 <= k < after.rows.len() && after.rows[k].id == id;
    if k != n {
        assert(after.rows[k].id != after.rows[n].id);
    }
}

/// The same subject under another account never shares a thread: after a
/// message of one account was classified, a message of another account
/// that has no thread for the subject gets a thread of its own, with
/// another identifier, and the thread of the first message stays as it is.
pub proof fn law_other_account_gets_its_own_thread(
    t: ThreadTableModel,
    first_account: i64,
    second_account: i64,
    subject: Seq<char>,
    first_message: i64,
    second_message: i64,
    first_time: i64,
    second_time: i64,
)
    requires
        t.wf(),
        first_account != second_account,
        t.classify(first_account, thread_key(subject), first_message, first_time).1 is Some,
        t.find(second_account, thread_key(subject)) is None,
        t.classify(first_account, thread_key(subject), first_message, first_time).0.next_id
            < i64::MAX,
    ensures
        ({
            let (once, first) = t.classify(
                first_account,
                thread_key(subject),
                first_message,
                first_time,
            );
            let (twice, second) = once.classify(
                second_account,
                thread_key(subject),
                second_message,
                second_time,
            );
            &&& second is Some
            &&& second != first
            &&& twice.get(second.unwrap()) matches Some(made) && made.account_id == second_account
                && made.message_count == 1
            &&& twice.get(first.unwrap()) == once.get(first.unwrap())
        }),
{
    let key = thread_key(subject);
    let (once, first) = t.classify(first_account, key, first_message, first_time);
    lemma_classify_wf(t, first_account, key, first_message, first_time);
    // the second account still has no thread for the subject
    if once.find(second_account, key) is Some {
        let k = once.find(second_account, key).unwrap();
        assert(once.holds(k, second_account, key));
        if t.find(first_account, key) is Some {
            assert(t.holds(t.find(first_account, key).unwrap(), first_account, key));
        }
        if k < t.rows.len() {
            assert(t.holds(k, second_account, key));
        }
    }
    law_new_thread_leaves_others(once, second_account, key, second_message, second_time);
    let (twice, second) = once.classify(second_account, key, second_message, second_time);
    lemma_classify_wf(once, second_account, key, second_message, second_time);
    // the thread of the first message
    let a: int = match t.find(first_account, key) {
        Some(i) => i,
        None => t.rows.len() as int,
    };
    if t.find(first_account, key) is Some {
        assert(t.holds(a, first_account, key));
    }
    assert(once.rows[a].id == first.unwrap());
    assert(twice.rows[a] == once.rows[a]);
    let i = choose|i: int| 0 <= i < once.rows.len() && once.rows[i].id == first.unwrap();
    if i != a {
        assert(once.rows[i].id != once.rows[a].id);
    }
    let j = choose|j: int| 0 <= j < twice.rows.len() && twice.rows[j].id == first.unwrap();
    if j != a {
        assert(twice.rows[j].id != twice.rows[a].id);
    }
}

} // verus!
