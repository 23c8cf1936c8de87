//! The order of a synchronization session, and what is said to the server
//! in it.
//!
//! The session itself runs outside this library. After each step it reports
//! what happened, and [`SyncSession::step`] decides what is done next.

use crate::cache::{is_folder, save_folder, CacheModel, CacheStore};

use crate::models::{Folder, FolderModel};
use crate::numfmt::{decimal, decimal_digits_of};
use crate::ranking::{
    indices, key_models, ranking, ranking_of, ranks_before, SortKey, SortKeyModel,
};
use crate::table::first_where;
use crate::text::{chars_of, join, join_of, string_of, texts};
use vstd::prelude::*;
use vstd::string::StringExecFns;

verus! {

/// Where a session stands.
#[derive(Clone, Copy, Debug, PartialEq, Eq, Structural)]
pub enum SyncPhase {
    /// No connection yet.
    Disconnected,
    /// Connected and logged in.
    Connected,
    /// The folders are known; none is selected.
    FolderListed,
    /// A folder is selected.
    FolderSelected,
    /// The messages of the selected folder were fetched.
    MessagesFetched,
    /// The session is over.
    LoggedOut,
}

/// What went wrong with the server.
#[derive(Clone, Copy, Debug, PartialEq, Eq, Structural)]
pub enum ProtocolError {
    /// The connection could not be made.
    ConnectFailed,
    /// The server refused the login.
    AuthRejected,
    /// The server answered what the session cannot go on from.
    MalformedResponse,
}

/// What happened in the last step.
#[derive(Clone, Copy, Debug, PartialEq, Eq, Structural)]
pub enum SyncEvent {
    /// The connection stands and the login was accepted.
    Connected,
    /// The connection could not be made.
    ConnectFailed,
    /// The server refused the login.
    LoginRejected,
    /// The server listed this many folders.
    FoldersListed(usize),
    /// The folder was selected.
    FolderSelected,
    /// The search found this many UIDs.
    UidsFound(usize),
    /// The messages were fetched and taken in.
    MessagesFetched,
    /// The last command failed.
    CommandFailed,
    /// The logout is done.
    LoggedOut,
}

/// What is done next.
#[derive(Clone, Copy, Debug, PartialEq, Eq, Structural)]
pub enum SyncAction {
    /// List the folders.
    ListFolders,
    /// Select the folder with this index.
    SelectFolder(usize),
    /// Search the selected folder for the UIDs of all messages.
    SearchAll,
    /// Fetch the messages that the search found, in one command.
    FetchAll,
    /// Log out.
    Logout,
    /// Nothing: the session is over.
    Finish,
    /// Nothing: the session failed.
    Abort(ProtocolError),
}

/// A session: its phase, the number of folders, the index of the folder
/// that is being synchronized, and how many folders failed.
#[derive(Clone, Copy, Debug, PartialEq, Eq, Structural)]
pub struct SyncSession {
    pub phase: SyncPhase,
    pub folders: usize,
    pub current: usize,
    pub failed: usize,
}

impl SyncSession {
    /// The index of the current folder is at most the number of folders, and
    /// no more folders failed than were begun.
    pub open spec fn wf(self) -> bool {
        self.current <= self.folders && self.failed <= self.current
    }

    /// The session that goes on to the next folder, and what is done for
    /// it: the next folder is selected, or, after the last, the session logs
    /// out.
    pub open spec fn go_on(self, failed: bool) -> (SyncSession, SyncAction) {
        let next = (self.current + 1) as usize;
        let count = if failed {
            (self.failed + 1) as usize
        } else {
            self.failed
        };
        if next < self.folders {
            (
                SyncSession {
                    phase: SyncPhase::FolderListed,
                    current: next,
                    failed: count,
                    ..self
                },
                SyncAction::SelectFolder(next),
            )
        } else {
            (
                SyncSession {
                    phase: SyncPhase::MessagesFetched,
                    current: self.folders,
                    failed: count,
                    ..self
                },
                SyncAction::Logout,
            )
        }
    }

    /// The session after `event`, and what is done next.
    ///
    /// A session connects, lists the folders, then for each folder selects
    /// it, searches it and, unless it is empty, fetches its messages; then
    /// it logs out. A command that fails while a folder is synchronized
    /// ends the work on that folder, not the session. A connection or a
    /// login that fails, and an event that does not belong to the phase,
    /// end the session.
    pub open spec fn next(self, event: SyncEvent) -> (SyncSession, SyncAction) {
        let over = SyncSession { phase: SyncPhase::LoggedOut, ..self };
        match (self.phase, event) {
            (SyncPhase::Disconnected, SyncEvent::Connected) => (
                SyncSession { phase: SyncPhase::Connected, ..self },
                SyncAction::ListFolders,
            ),
            (SyncPhase::Disconnected, SyncEvent::ConnectFailed) => (
                over,
                SyncAction::Abort(ProtocolError::ConnectFailed),
            ),
            (SyncPhase::Disconnected, SyncEvent::LoginRejected) => (
                over,
                SyncAction::Abort(ProtocolError::AuthRejected),
            ),
            (SyncPhase::Connected, SyncEvent::FoldersListed(n)) => if n > 0 {
                (
                    SyncSession {
                        phase: SyncPhase::FolderListed,
                        folders: n,
                        current: 0,
                        failed: 0,
                    },
                    SyncAction::SelectFolder(0),
                )
            } else {
                (
                    SyncSession {
                        phase: SyncPhase::MessagesFetched,
                        folders: 0,
                        current: 0,
                        failed: 0,
                    },
                    SyncAction::Logout,
                )
            },
            (SyncPhase::FolderListed, SyncEvent::FolderSelected) => (
                SyncSession { phase: SyncPhase::FolderSelected, ..self },
                SyncAction::SearchAll,
            ),
            (SyncPhase::FolderSelected, SyncEvent::UidsFound(n)) => if n > 0 {
                (self, SyncAction::FetchAll)
            } else {
                self.go_on(false)
            },
            (SyncPhase::FolderSelected, SyncEvent::MessagesFetched) => self.go_on(false),
            (SyncPhase::FolderListed, SyncEvent::CommandFailed) => self.go_on(true),
            (SyncPhase::FolderSelected, SyncEvent::CommandFailed) => self.go_on(true),
            (SyncPhase::MessagesFetched, SyncEvent::LoggedOut) => (over, SyncAction::Finish),
            (SyncPhase::MessagesFetched, SyncEvent::CommandFailed) => (over, SyncAction::Finish),
            (SyncPhase::LoggedOut, _) => (self, SyncAction::Finish),
            _ => (over, SyncAction::Abort(ProtocolError::MalformedResponse)),
        }
    }

    /// A session that has not connected yet.
    pub fn new() -> (s: SyncSession)
        ensures
            s.wf(),
            s == (SyncSession { phase: SyncPhase::Disconnected, folders: 0, current: 0, failed: 0 }),
    {
        SyncSession { phase: SyncPhase::Disconnected, folders: 0, current: 0, failed: 0 }
    }

    fn advance(&mut self, failed: bool) -> (action: SyncAction)
        requires
            old(self).wf(),
            old(self).current < old(self).folders,
        ensures
            (*final(self), action) == old(self).go_on(failed),
            final(self).wf(),
    {
        let next: usize = self.current + 1;
        if failed {
            self.failed = self.failed + 1;
        }
        if next < self.folders {
            self.phase = SyncPhase::FolderListed;
            self.current = next;
            SyncAction::SelectFolder(next)
        } else {
            self.phase = SyncPhase::MessagesFetched;
            self.current = self.folders;
            SyncAction::Logout
        }
    }

    /// Takes in what happened, and says what is done next.
    pub fn step(&mut self, event: SyncEvent) -> (action: SyncAction)
        requires
            old(self).in_order(),
        ensures
            (*final(self), action) == old(self).next(event),
            final(self).in_order(),
    {
        match (self.phase, event) {
            (SyncPhase::Disconnected, SyncEvent::Connected) => {
                self.phase = SyncPhase::Connected;
                SyncAction::ListFolders
            },
            (SyncPhase::Disconnected, SyncEvent::ConnectFailed) => {
                self.phase = SyncPhase::LoggedOut;
                SyncAction::Abort(ProtocolError::ConnectFailed)
            },
            (SyncPhase::Disconnected, SyncEvent::LoginRejected) => {
                self.phase = SyncPhase::LoggedOut;
                SyncAction::Abort(ProtocolError::AuthRejected)
            },
            (SyncPhase::Connected, SyncEvent::FoldersListed(n)) => {
                self.folders = n;
                self.current = 0;
                self.failed = 0;
                if n > 0 {
                    self.phase = SyncPhase::FolderListed;
                    SyncAction::SelectFolder(0)
                } else {
                    self.phase = SyncPhase::MessagesFetched;
                    SyncAction::Logout
                }
            },
            (SyncPhase::FolderListed, SyncEvent::FolderSelected) => {
                self.phase = SyncPhase::FolderSelected;
                SyncAction::SearchAll
            },
            (SyncPhase::FolderSelected, SyncEvent::UidsFound(n)) => {
                if n > 0 {
                    SyncAction::FetchAll
                } else {
                    self.advance(false)
                }
            },
            (SyncPhase::FolderSelected, SyncEvent::MessagesFetched) => self.advance(false),
            (SyncPhase::FolderListed, SyncEvent::CommandFailed) => self.advance(true),
            (SyncPhase::FolderSelected, SyncEvent::CommandFailed) => self.advance(true),
            (SyncPhase::MessagesFetched, SyncEvent::LoggedOut) => {
                self.phase = SyncPhase::LoggedOut;
                SyncAction::Finish
            },
            (SyncPhase::MessagesFetched, SyncEvent::CommandFailed) => {
                self.phase = SyncPhase::LoggedOut;
                SyncAction::Finish
            },
            (SyncPhase::LoggedOut, _) => SyncAction::Finish,
            _ => {
                self.phase = SyncPhase::LoggedOut;
                SyncAction::Abort(ProtocolError::MalformedResponse)
            },
        }
    }

    /// What holds of a session at every step: it is well formed, and while
    /// a folder is listed or selected, that folder is one of the folders.
    pub open spec fn in_order(self) -> bool {
        &&& self.wf()
        &&& (self.phase == SyncPhase::FolderListed || self.phase == SyncPhase::FolderSelected)
            ==> self.current < self.folders
    }
}

/// A session stays in order, whatever happens.
pub proof fn law_session_stays_in_order(s: SyncSession, event: SyncEvent)
    requires
        s.in_order(),
    ensures
        s.next(event).0.in_order(),
{
}

/// A command that fails while a folder is synchronized does not end the
/// session: the next folder is selected, or, after the last, the session
/// logs out.
pub proof fn law_folder_failure_goes_on(s: SyncSession)
    requires
        s.in_order(),
        s.phase == SyncPhase::FolderListed || s.phase == SyncPhase::FolderSelected,
    ensures
        s.next(SyncEvent::CommandFailed).1 == if s.current + 1 < s.folders {
            SyncAction::SelectFolder((s.current + 1) as usize)
        } else {
            SyncAction::Logout
        },
        s.next(SyncEvent::CommandFailed).0.failed == s.failed + 1,
{
}

/// An empty mailbox is no error and causes no fetch.
pub proof fn law_empty_folder_is_skipped(s: SyncSession)
    requires
        s.in_order(),
        s.phase == SyncPhase::FolderSelected,
    ensures
        s.next(SyncEvent::UidsFound(0)).1 != SyncAction::FetchAll,
        !(s.next(SyncEvent::UidsFound(0)).1 matches SyncAction::Abort(_)),
        s.next(SyncEvent::UidsFound(0)).0.failed == s.failed,
{
}

/// A login that the server refuses ends the session with
/// [`ProtocolError::AuthRejected`].
pub proof fn law_rejected_login_aborts(s: SyncSession)
    requires
        s.phase == SyncPhase::Disconnected,
    ensures
        s.next(SyncEvent::LoginRejected).1 == SyncAction::Abort(ProtocolError::AuthRejected),
        s.next(SyncEvent::LoginRejected).0.phase == SyncPhase::LoggedOut,
{
}

/// [`decimal`] of a UID, as a function.
pub open spec fn uid_texts() -> spec_fn(u32) -> Seq<char> {
    |u: u32| decimal(u as int)
}

/// The UIDs as a fetch names them: in decimal, with commas between them.
pub open spec fn sequence_set(uids: Seq<u32>) -> Seq<char> {
    join(uids.map_values(uid_texts()), ","@)
}

/// What a fetch of the messages with these UIDs asks for: all of them in
/// one set, or nothing where there are none.
pub fn uid_sequence_set(uids: &Vec<u32>) -> (r: Option<String>)
    ensures
        match r {
            Some(s) => uids.len() > 0 && s@ == sequence_set(uids@),
            None => uids.len() == 0,
        },
{
    if uids.len() == 0 {
        return None;
    }
    let mut shown: Vec<Vec<char>> = Vec::new();
    let mut i: usize = 0;
    proof {
        assert(texts(shown@) =~= uids@.take(0).map_values(uid_texts()));
    }
    while i < uids.len()
        invariant
            i <= uids.len(),
            texts(shown@) == uids@.take(i as int).map_values(uid_texts()),
        decreases uids.len() - i,
    {
        let t = decimal_digits_of(uids[i] as u64);
        proof {
            assert(uids@.take(i + 1) =~= uids@.take(i as int).push(uids@[i as int]));
            uids@.take(i as int).lemma_push_map_commute(uid_texts(), uids@[i as int]);
            assert(texts(shown@.push(t)) =~= texts(shown@).push(t@));
        }
        shown.push(t);
        i += 1;
    }
    proof {
        assert(uids@.take(uids.len() as int) =~= uids@);
    }
    Some(string_of(&join_of(&shown, &chars_of(","))))
}

/// The folder that is cached for a mailbox of `account_id` named `name`,
/// before it has an identifier: its path is its name.
pub open spec fn mailbox_folder(account_id: i64, name: Seq<char>) -> FolderModel {
    FolderModel { id: 0, account_id, name, path: name, parent_id: None }
}

/// The folders of the cache after the mailbox `name` of `account_id` was
/// found: it is added unless the account has a folder with that path.
pub open spec fn found(c: CacheModel, account_id: i64, name: Seq<char>) -> CacheModel {
    if first_where(c.folders, is_folder(account_id, name)) is Some || c.next_folder_id >= i64::MAX {
        c
    } else {
        CacheModel {
            folders: c.folders.push(
                FolderModel { id: c.next_folder_id as i64, ..mailbox_folder(account_id, name) },
            ),
            next_folder_id: c.next_folder_id + 1,
            ..c
        }
    }
}

/// The cache after the mailboxes `names` from index `from` on were found,
/// in order.
pub open spec fn found_all(c: CacheModel, account_id: i64, names: Seq<Seq<char>>, from: int) -> CacheModel
    decreases names.len() - from,
{
    if from < 0 || from >= names.len() {
        c
    } else {
        found_all(found(c, account_id, names[from]), account_id, names, from + 1)
    }
}

/// The folder that the cache holds for the mailbox `name` of `account_id`.
pub open spec fn held_folder(c: CacheModel, account_id: i64, name: Seq<char>) -> Option<FolderModel> {
    first_where(c.folders, is_folder(account_id, name))
}

/// Caches the mailboxes that the server listed for `account_id`. A mailbox
/// that the account has a folder for is not added again. Returns the
/// folders of the listed mailboxes, in the order of the list, each under
/// the identifier of the folder that the cache holds for it; where no
/// identifier was left for a new mailbox, it is left out.
pub fn fetch_folders(store: &mut CacheStore, account_id: i64, names: &Vec<String>) -> (r: Vec<
    Folder,
>)
    requires
        old(store).wf(),
    ensures
        final(store).wf(),
        final(store)@ == found_all(
            old(store)@,
            account_id,
            crate::contacts::string_texts(names@),
            0,
        ),
        r.len() <= names.len(),
        forall|i: int|
            0 <= i < r.len() ==> (held_folder(
                final(store)@,
                account_id,
                (#[trigger] r@[i]).path@,
            ) matches Some(held) && held.id == r@[i].id) && r@[i]@ == (FolderModel {
                id: r@[i].id,
                ..mailbox_folder(account_id, r@[i].path@)
            }),
        final(store)@.next_folder_id < i64::MAX ==> r.len() == names.len() && forall|i: int|
            0 <= i < r.len() ==> (#[trigger] r@[i]).path@ == names@[i]@,
{
    let ghost all = crate::contacts::string_texts(names@);
    let ghost start = store@;
    let mut r: Vec<Folder> = Vec::new();
    let mut i: usize = 0;
    while i < names.len()
        invariant
            i <= names.len(),
            store.wf(),
            all == crate::contacts::string_texts(names@),
            found_all(start, account_id, all, 0) == found_all(store@, account_id, all, i as int),
            r.len() <= i,
            forall|k: int|
                0 <= k < r.len() ==> (held_folder(
                    store@,
                    account_id,
                    (#[trigger] r@[k]).path@,
                ) matches Some(held) && held.id == r@[k].id) && r@[k]@ == (FolderModel {
                    id: r@[k].id,
                    ..mailbox_folder(account_id, r@[k].path@)
                }),
            store@.next_folder_id < i64::MAX ==> r.len() == i && forall|k: int|
                0 <= k < r.len() ==> (#[trigger] r@[k]).path@ == all[k],
        decreases names.len() - i,
    {
        let mut folder = Folder {
            id: 0,
            account_id,
            name: names[i].clone(),
            path: names[i].clone(),
            parent_id: None,
        };
        proof {
            assert(all[i as int] == names@[i as int]@);
            assert(folder@ == mailbox_folder(account_id, all[i as int]));
        }
        let ghost before = store@;
        let saved = save_folder(store, &mut folder);
        proof {
            assert(store@ == found(before, account_id, all[i as int]));
            // folders that were found stay as they are
            assert forall|k: int| 0 <= k < r.len() implies held_folder(
                store@,
                account_id,
                (#[trigger] r@[k]).path@,
            ) == held_folder(before, account_id, r@[k].path@) by {
                lemma_found_keeps(before, account_id, all[i as int], r@[k].path@);
            }
        }
        match saved {
            Ok(_) => {
                proof {
                    lemma_found_holds(before, account_id, all[i as int]);
                    lemma_found_value(before, account_id, all[i as int]);
                }
                r.push(folder);
            },
            Err(_) => {},
        }
        i += 1;
    }
    proof {
        assert forall|k: int| 0 <= k < r.len() && store@.next_folder_id < i64::MAX implies (
        #[trigger] r@[k]).path@ == names@[k]@ by {
            assert(all[k] == names@[k]@);
        }
    }
    r
}

/// A folder that the cache holds is held unchanged after a mailbox was
/// found.
pub proof fn lemma_found_keeps(c: CacheModel, account_id: i64, name: Seq<char>, path: Seq<char>)
    requires
        first_where(c.folders, is_folder(account_id, path)) is Some,
    ensures
        first_where(found(c, account_id, name).folders, is_folder(account_id, path)) == first_where(
            c.folders,
            is_folder(account_id, path),
        ),
{
    let hit = is_folder(account_id, path);
    let after = found(c, account_id, name).folders;
    crate::table::lemma_position(c.folders, hit, 0);
    crate::table::lemma_position(after, hit, 0);
    let p = crate::table::position(c.folders, hit, 0);
    let q = crate::table::position(after, hit, 0);
    if after.len() > c.folders.len() {
        assert(after[p] == c.folders[p]);
        if q < p {
            assert(after[q] == c.folders[q]);
        }
    }
    if q > p {
        assert(hit(after[p]));
    }
}

/// The folder that the cache holds for a mailbox that was found: the one
/// that it held before, or the mailbox under the identifier that was next.
pub proof fn lemma_found_value(c: CacheModel, account_id: i64, name: Seq<char>)
    requires
        first_where(c.folders, is_folder(account_id, name)) is Some || c.next_folder_id < i64::MAX,
    ensures
        first_where(found(c, account_id, name).folders, is_folder(account_id, name)) == match first_where(
            c.folders,
            is_folder(account_id, name),
        ) {
            Some(known) => Some(known),
            None => Some(
                FolderModel { id: c.next_folder_id as i64, ..mailbox_folder(account_id, name) },
            ),
        },
{
    let hit = is_folder(account_id, name);
    let after = found(c, account_id, name).folders;
    crate::table::lemma_position(after, hit, 0);
    crate::table::lemma_position(c.folders, hit, 0);
    if first_where(c.folders, hit) is None {
        let n = c.folders.len() as int;
        assert(hit(after[n]));
        let q = crate::table::position(after, hit, 0);
        if q < n {
            assert(after[q] == c.folders[q]);
        }
    }
}

/// After a mailbox was found, the account has a folder with its path,
/// unless no identifier was left for it.
pub proof fn lemma_found_holds(c: CacheModel, account_id: i64, name: Seq<char>)
    requires
        first_where(c.folders, is_folder(account_id, name)) is Some || c.next_folder_id < i64::MAX,
    ensures
        first_where(found(c, account_id, name).folders, is_folder(account_id, name)) is Some,
{
    let hit = is_folder(account_id, name);
    let after = found(c, account_id, name).folders;
    crate::table::lemma_position(after, hit, 0);
    if first_where(c.folders, hit) is None {
        let n = c.folders.len() as int;
        assert(hit(after[n]));
    }
}

/// Finding a mailbox again adds no folder: the cache after the second time
/// is the cache after the first.
pub proof fn law_discovery_is_idempotent(c: CacheModel, account_id: i64, name: Seq<char>)
    ensures
        found(found(c, account_id, name), account_id, name) == found(c, account_id, name),
{
    if first_where(c.folders, is_folder(account_id, name)) is Some || c.next_folder_id < i64::MAX {
        lemma_found_holds(c, account_id, name);
    }
}

/// The name of the mechanism by which a session logs in with an access
/// token.
pub fn sasl_mechanism() -> (r: &'static str)
    ensures
        r@ == "XOAUTH2"@,
{
    "XOAUTH2"
}

/// What the client answers to the server's challenge when it logs in with
/// an access token: the user and the token, each closed by the byte 1, and
/// one more at the end.
pub open spec fn sasl_response(user: Seq<char>, access_token: Seq<char>) -> Seq<char> {
    "user="@ + user + "\x01auth=Bearer "@ + access_token + "\x01\x01"@
}

/// What the client answers to the server's challenge when it logs in with
/// an access token.
pub fn xoauth2_response(user: &str, access_token: &str) -> (r: String)
    ensures
        r@ == sasl_response(user@, access_token@),
{
    let mut r = String::from_str("user=");
    r.append(user);
    r.append("\x01auth=Bearer ");
    r.append(access_token);
    r.append("\x01\x01");
    r
}

/// The reference name under which the mailboxes are listed: none.
pub fn list_reference() -> (r: &'static str)
    ensures
        r@ == ""@,
{
    ""
}

/// The pattern by which the mailboxes are listed: all of them.
pub fn list_pattern() -> (r: &'static str)
    ensures
        r@ == "*"@,
{
    "*"
}

/// The search that finds the UIDs of all messages of the selected folder.
pub fn search_query() -> (r: &'static str)
    ensures
        r@ == "ALL"@,
{
    "ALL"
}

/// What is fetched of each message: all of it, as it was sent.
pub fn fetch_items() -> (r: &'static str)
    ensures
        r@ == "(RFC822)"@,
{
    "(RFC822)"
}

/// The key that ranks a UID before every larger one.
pub open spec fn rising() -> spec_fn(u32) -> SortKeyModel {
    |u: u32| SortKeyModel { major: (-1 - u) as i64, minor: 0, text: Seq::empty() }
}

/// The UIDs in rising order; equal ones in the order in which they stood.
pub open spec fn sorted_uids(uids: Seq<u32>) -> Seq<u32> {
    ranking(uids.map_values(rising())).map_values(|i: int| uids[i])
}

/// The UIDs that a search found, in rising order, so that the same
/// mailbox is fetched by the same command whatever order the server named
/// them in.
pub fn sort_uids(uids: &Vec<u32>) -> (r: Vec<u32>)
    ensures
        r@ == sorted_uids(uids@),
        r.len() == uids.len(),
        forall|i: int, j: int| 0 <= i < j < r.len() ==> r@[i] <= r@[j],
        forall|i: int| 0 <= i < r.len() ==> uids@.contains(#[trigger] r@[i]),
{
    let mut keys: Vec<SortKey> = Vec::new();
    let mut i: usize = 0;
    while i < uids.len()
        invariant
            i <= uids.len(),
            keys.len() == i,
            forall|k: int| 0 <= k < i ==> (#[trigger] keys@[k])@ == rising()(uids@[k]),
        decreases uids.len() - i,
    {
        keys.push(SortKey { major: -1 - (uids[i] as i64), minor: 0, text: Vec::new() });
        i += 1;
    }
    proof {
        assert(key_models(keys@) =~= uids@.map_values(rising()));
    }
    let order = ranking_of(&keys);
    let ghost models = key_models(keys@);
    let mut r: Vec<u32> = Vec::new();
    let mut k: usize = 0;
    proof {
        assert forall|a: int| 0 <= a < order.len() implies #[trigger] order@[a] < uids.len() by {
            assert(indices(order@)[a] == order@[a]);
        }
    }
    while k < order.len()
        invariant
            k <= order.len(),
            order.len() == uids.len(),
            forall|a: int| 0 <= a < order.len() ==> #[trigger] order@[a] < uids.len(),
            r.len() == k,
            forall|a: int| 0 <= a < k ==> #[trigger] r@[a] == uids@[order@[a] as int],
        decreases order.len() - k,
    {
        r.push(uids[order[k]]);
        k += 1;
    }
    proof {
        let want = sorted_uids(uids@);
        assert(r@.len() == want.len());
        assert forall|a: int| 0 <= a < r.len() implies r@[a] == want[a] by {
            assert(indices(order@)[a] == order@[a]);
        }
        assert(r@ =~= want);
        assert forall|a: int, b: int| 0 <= a < b < r.len() implies r@[a] <= r@[b] by {
            assert(indices(order@)[a] == order@[a]);
            assert(indices(order@)[b] == order@[b]);
            assert(ranks_before(models, indices(order@)[a], indices(order@)[b]));
            assert(models[order@[a] as int] == rising()(uids@[order@[a] as int]));
            assert(models[order@[b] as int] == rising()(uids@[order@[b] as int]));
        }
    }
    r
}

} // verus!
