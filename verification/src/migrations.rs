//! The schema of the cache and the ledger of the migrations that were
//! applied to it.

use crate::error::{DEmailError, ErrorKind};
use vstd::prelude::*;
use vstd::string::StringExecFns;

verus! {

/// An object of the schema: a table, a column that was added to a table
/// later, a trigger or an index.
#[derive(Clone, Copy, Debug, PartialEq, Eq, Structural)]
pub enum SchemaItem {
    AccountsTable,
    FoldersTable,
    MessagesTable,
    AttachmentsTable,
    MessageFlagsTable,
    MessagesTextIndex,
    TextIndexInsertTrigger,
    TextIndexDeleteTrigger,
    TextIndexUpdateTrigger,
    DraftsTable,
    SignaturesTable,
    SettingsTable,
    AttachmentDataTable,
    MigrationsTable,
    ThreadsTable,
    ContactsTable,
    MessagesIsStarredColumn,
    MessagesThreadIdColumn,
    MessagesDateIndex,
    MessagesFolderIndex,
    MessagesAccountIndex,
    MessagesThreadIndex,
    MessagesStarredIndex,
    ThreadsAccountIndex,
    ThreadsSubjectHashIndex,
    ContactsEmailIndex,
    ContactsLastUsedIndex,
}

/// One entry of the ledger.
#[derive(Debug)]
pub struct MigrationRecord {
    pub version: i64,
    pub description: String,
    pub applied_at: i64,
    pub applied: bool,
}

/// The model of a [`MigrationRecord`].
pub struct MigrationRecordModel {
    pub version: i64,
    pub description: Seq<char>,
    pub applied_at: i64,
    pub applied: bool,
}

impl View for MigrationRecord {
    type V = MigrationRecordModel;

    open spec fn view(&self) -> MigrationRecordModel {
        MigrationRecordModel {
            version: self.version,
            description: self.description@,
            applied_at: self.applied_at,
            applied: self.applied,
        }
    }
}

/// A step of the schema: the objects that it makes sure are there.
#[derive(Debug)]
pub struct Migration {
    pub version: i64,
    pub description: String,
    pub items: Vec<SchemaItem>,
}

/// The model of a [`Migration`].
pub struct MigrationModel {
    pub version: i64,
    pub description: Seq<char>,
    pub items: Seq<SchemaItem>,
}

impl View for Migration {
    type V = MigrationModel;

    open spec fn view(&self) -> MigrationModel {
        MigrationModel {
            version: self.version,
            description: self.description@,
            items: self.items@,
        }
    }
}

/// The models of the migrations that a vector holds.
pub open spec fn migration_models(v: Seq<Migration>) -> Seq<MigrationModel> {
    v.map_values(|m: Migration| m@)
}

/// The models of the records that a vector holds.
pub open spec fn record_models(v: Seq<MigrationRecord>) -> Seq<MigrationRecordModel> {
    v.map_values(|r: MigrationRecord| r@)
}

/// Whether the versions of the migrations are positive and rise strictly.
pub open spec fn rising(list: Seq<MigrationModel>) -> bool {
    &&& forall|i: int| 0 <= i < list.len() ==> (#[trigger] list[i]).version >= 1
    &&& forall|i: int, j: int| 0 <= i < j < list.len() ==> (#[trigger] list[i]).version < (
    #[trigger] list[j]).version
}

/// The largest version among the first `upto` records that are marked as
/// applied, or 0 where there is none.
pub open spec fn max_applied(records: Seq<MigrationRecordModel>, upto: int) -> i64
    decreases upto,
{
    if upto <= 0 || upto > records.len() {
        0
    } else {
        let before = max_applied(records, upto - 1);
        let r = records[upto - 1];
        if r.applied && r.version > before {
            r.version
        } else {
            before
        }
    }
}

/// The schema and the ledger.
pub struct SchemaModel {
    pub items: Set<SchemaItem>,
    pub records: Seq<MigrationRecordModel>,
}

impl SchemaModel {
    /// No version stands in the ledger twice.
    pub open spec fn wf(self) -> bool {
        forall|i: int, j: int|
            0 <= i < self.records.len() && 0 <= j < self.records.len() && i != j ==> (
            #[trigger] self.records[i]).version != (#[trigger] self.records[j]).version
    }

    /// The version of the schema: 0 where there is no ledger, otherwise the
    /// largest version that the ledger marks as applied, or 0 where it marks
    /// none.
    pub open spec fn current_version(self) -> i64 {
        if !self.items.contains(SchemaItem::MigrationsTable) {
            0
        } else {
            max_applied(self.records, self.records.len() as int)
        }
    }

    /// Whether record `i` is that of `version`.
    pub open spec fn holds(self, i: int, version: i64) -> bool {
        0 <= i < self.records.len() && self.records[i].version == version
    }

    /// The index of the record of `version`.
    pub open spec fn find(self, version: i64) -> Option<int> {
        if exists|i: int| self.holds(i, version) {
            Some(choose|i: int| self.holds(i, version))
        } else {
            None
        }
    }

    /// The state with the objects `items` in the schema.
    pub open spec fn with_items(self, items: Seq<SchemaItem>) -> SchemaModel {
        SchemaModel { items: self.items.union(items.to_set()), ..self }
    }

    /// The state with `version` marked as applied at `now`: its record is
    /// added, or brought up to date where the ledger has one.
    pub open spec fn record(self, version: i64, description: Seq<char>, now: i64) -> SchemaModel {
        let entry = MigrationRecordModel { version, description, applied_at: now, applied: true };
        match self.find(version) {
            Some(i) => SchemaModel { records: self.records.update(i, entry), ..self },
            None => SchemaModel { records: self.records.push(entry), ..self },
        }
    }

    /// The state after one migration was applied and recorded.
    pub open spec fn apply(self, m: MigrationModel, now: i64) -> SchemaModel {
        self.with_items(m.items).record(m.version, m.description, now)
    }

    /// The state after those migrations of `list` from index `from` on were
    /// applied, in order, whose version is above `current`.
    pub open spec fn apply_pending(self, list: Seq<MigrationModel>, from: int, current: i64, now: i64) -> SchemaModel
        decreases list.len() - from,
    {
        if from < 0 || from >= list.len() {
            self
        } else if list[from].version > current {
            self.apply(list[from], now).apply_pending(list, from + 1, current, now)
        } else {
            self.apply_pending(list, from + 1, current, now)
        }
    }

    /// The state after the migrations of `list` that are above the current
    /// version were applied.
    pub open spec fn migrate(self, list: Seq<MigrationModel>, now: i64) -> SchemaModel {
        self.apply_pending(list, 0, self.current_version(), now)
    }

    /// The state with the record of the current version marked as not
    /// applied.
    pub open spec fn rollback(self) -> SchemaModel {
        SchemaModel {
            records: Seq::new(
                self.records.len(),
                |i: int|
                    if self.records[i].version == self.current_version() {
                        MigrationRecordModel { applied: false, ..self.records[i] }
                    } else {
                        self.records[i]
                    },
            ),
            ..self
        }
    }
}

/// The largest applied version is that of no record unless it is 0, and no
/// applied record has a larger one.
pub proof fn lemma_max_applied(records: Seq<MigrationRecordModel>, upto: int)
    requires
        0 <= upto <= records.len(),
    ensures
        forall|i: int|
            0 <= i < upto && (#[trigger] records[i]).applied ==> records[i].version <= max_applied(
                records,
                upto,
            ),
        max_applied(records, upto) == 0 || exists|i: int|
            0 <= i < upto && (#[trigger] records[i]).applied && records[i].version == max_applied(
                records,
                upto,
            ),
        max_applied(records, upto) >= 0,
    decreases upto,
{
    if upto > 0 {
        lemma_max_applied(records, upto - 1);
        let before = max_applied(records, upto - 1);
        let r = records[upto - 1];
        if r.applied && r.version > before {
            assert(records[upto - 1].applied && records[upto - 1].version == max_applied(
                records,
                upto,
            ));
        } else if before != 0 {
            let i = choose|i: int|
                0 <= i < upto - 1 && (#[trigger] records[i]).applied && records[i].version
                    == before;
            assert(records[i].applied && records[i].version == max_applied(records, upto));
        }
    }
}

/// Two ledgers that agree on their first `upto` records have the same
/// largest applied version among them.
pub proof fn lemma_max_applied_agrees(
    a: Seq<MigrationRecordModel>,
    b: Seq<MigrationRecordModel>,
    upto: int,
)
    requires
        0 <= upto <= a.len(),
        upto <= b.len(),
        forall|i: int| 0 <= i < upto ==> a[i] == b[i],
    ensures
        max_applied(a, upto) == max_applied(b, upto),
    decreases upto,
{
    if upto > 0 {
        lemma_max_applied_agrees(a, b, upto - 1);
    }
}

/// Recording keeps the ledger well formed, keeps the schema, and lifts the
/// largest applied version to the recorded one where that is larger.
pub proof fn lemma_record(s: SchemaModel, version: i64, description: Seq<char>, now: i64)
    requires
        s.wf(),
    ensures
        s.record(version, description, now).wf(),
        s.record(version, description, now).items == s.items,
        max_applied(
            s.record(version, description, now).records,
            s.record(version, description, now).records.len() as int,
        ) >= version,
        max_applied(
            s.record(version, description, now).records,
            s.record(version, description, now).records.len() as int,
        ) >= max_applied(s.records, s.records.len() as int),
{
    let after = s.record(version, description, now);
    let n = after.records.len() as int;
    lemma_max_applied(s.records, s.records.len() as int);
    lemma_max_applied(after.records, n);
    let at: int = match s.find(version) {
        Some(i) => i,
        None => s.records.len() as int,
    };
    if s.find(version) is Some {
        assert(s.holds(at, version));
        assert forall|i: int, j: int|
            0 <= i < after.records.len() && 0 <= j < after.records.len() && i != j implies (
        #[trigger] after.records[i]).version != (#[trigger] after.records[j]).version by {
            assert(after.records[i].version == s.records[i].version);
            assert(after.records[j].version == s.records[j].version);
        }
    } else {
        assert forall|i: int, j: int|
            0 <= i < after.records.len() && 0 <= j < after.records.len() && i != j implies (
        #[trigger] after.records[i]).version != (#[trigger] after.records[j]).version by {
            if i < s.records.len() && j < s.records.len() {
                assert(after.records[i] == s.records[i]);
                assert(after.records[j] == s.records[j]);
            } else if i < s.records.len() {
                assert(!s.holds(i, version));
            } else {
                assert(!s.holds(j, version));
            }
        }
    }
    assert(after.records[at].applied && after.records[at].version == version);
    let old_max = max_applied(s.records, s.records.len() as int);
    if old_max != 0 {
        let i = choose|i: int|
            0 <= i < s.records.len() && (#[trigger] s.records[i]).applied && s.records[i].version
                == old_max;
        if i != at {
            assert(after.records[i] == s.records[i]);
            assert(after.records[i].applied);
        } else {
            assert(old_max == version);
        }
    }
}

/// Applying pending migrations keeps the ledger well formed, never lowers
/// the largest applied version, keeps the ledger's table where it is, and
/// leaves that table in the schema where a migration was applied that
/// brings it.
pub proof fn lemma_apply_pending(
    s: SchemaModel,
    list: Seq<MigrationModel>,
    from: int,
    current: i64,
    now: i64,
)
    requires
        s.wf(),
        0 <= from <= list.len(),
    ensures
        s.apply_pending(list, from, current, now).wf(),
        max_applied(
            s.apply_pending(list, from, current, now).records,
            s.apply_pending(list, from, current, now).records.len() as int,
        ) >= max_applied(s.records, s.records.len() as int),
        s.items.subset_of(s.apply_pending(list, from, current, now).items),
        forall|k: int|
            from <= k < list.len() && (#[trigger] list[k]).version > current ==> max_applied(
                s.apply_pending(list, from, current, now).records,
                s.apply_pending(list, from, current, now).records.len() as int,
            ) >= list[k].version,
        forall|k: int, x: SchemaItem|
            from <= k < list.len() && (#[trigger] list[k]).version > current && list[k].items.contains(x)
                ==> #[trigger] s.apply_pending(list, from, current, now).items.contains(x),
    decreases list.len() - from,
{
    if from < list.len() {
        if list[from].version > current {
            let m = list[from];
            let with = s.with_items(m.items);
            lemma_record(with, m.version, m.description, now);
            let next = s.apply(m, now);
            lemma_apply_pending(next, list, from + 1, current, now);
            let end = s.apply_pending(list, from, current, now);
            assert forall|k: int, x: SchemaItem|
                from <= k < list.len() && (#[trigger] list[k]).version > current
                    && list[k].items.contains(x) implies #[trigger] end.items.contains(x) by {
                if k == from {
                    assert(m.items.to_set().contains(x));
                    assert(next.items.contains(x));
                }
            }
        } else {
            lemma_apply_pending(s, list, from + 1, current, now);
        }
    }
}

/// Applying pending migrations where none is pending changes nothing.
pub proof fn lemma_nothing_pending(
    s: SchemaModel,
    list: Seq<MigrationModel>,
    from: int,
    current: i64,
    now: i64,
)
    requires
        0 <= from <= list.len(),
        forall|k: int| from <= k < list.len() ==> (#[trigger] list[k]).version <= current,
    ensures
        s.apply_pending(list, from, current, now) == s,
    decreases list.len() - from,
{
    if from < list.len() {
        lemma_nothing_pending(s, list, from + 1, current, now);
    }
}

/// Applying the migrations twice in a row leaves the schema, its version
/// and the ledger as they are after the first time, whenever the second
/// time is. The first migration of the list is taken to bring the ledger's
/// table.
pub proof fn law_migrating_twice_is_migrating_once(
    s: SchemaModel,
    list: Seq<MigrationModel>,
    first_time: i64,
    second_time: i64,
)
    requires
        s.wf(),
        rising(list),
        list.len() > 0 ==> list[0].items.contains(SchemaItem::MigrationsTable),
    ensures
        s.migrate(list, first_time).migrate(list, second_time) == s.migrate(list, first_time),
        s.migrate(list, first_time).current_version() >= s.current_version(),
        s.migrate(list, first_time).wf(),
{
    let current = s.current_version();
    let once = s.migrate(list, first_time);
    lemma_apply_pending(s, list, 0, current, first_time);
    lemma_max_applied(s.records, s.records.len() as int);
    lemma_max_applied(once.records, once.records.len() as int);
    if list.len() > 0 {
        if list[0].version > current {
            // the first migration was applied, and brought the ledger's table
            assert(once.items.contains(SchemaItem::MigrationsTable));
        } else {
            // the version was above 0, so the ledger's table was there
            assert(current >= 1);
            assert(s.items.contains(SchemaItem::MigrationsTable));
            assert(once.items.contains(SchemaItem::MigrationsTable));
        }
        assert forall|k: int| 0 <= k < list.len() implies (#[trigger] list[k]).version
            <= once.current_version() by {
            if list[k].version > current {
            } else {
                assert(current <= once.current_version());
            }
        }
        lemma_nothing_pending(once, list, 0, once.current_version(), second_time);
    } else {
        assert(once == s);
    }
}

/// The objects of the schema of a new installation.
pub open spec fn base_items() -> Seq<SchemaItem> {
    seq![
        SchemaItem::AccountsTable,
        SchemaItem::FoldersTable,
        SchemaItem::MessagesTable,
        SchemaItem::MessagesIsStarredColumn,
        SchemaItem::MessagesThreadIdColumn,
        SchemaItem::AttachmentsTable,
        SchemaItem::MessageFlagsTable,
        SchemaItem::MessagesTextIndex,
        SchemaItem::TextIndexInsertTrigger,
        SchemaItem::TextIndexDeleteTrigger,
        SchemaItem::TextIndexUpdateTrigger,
        SchemaItem::DraftsTable,
        SchemaItem::SignaturesTable,
        SchemaItem::SettingsTable,
        SchemaItem::AttachmentDataTable,
        SchemaItem::MigrationsTable,
        SchemaItem::ThreadsTable,
        SchemaItem::ContactsTable,
        SchemaItem::MessagesDateIndex,
        SchemaItem::MessagesFolderIndex,
        SchemaItem::MessagesAccountIndex,
        SchemaItem::MessagesThreadIndex,
        SchemaItem::MessagesStarredIndex,
        SchemaItem::ThreadsAccountIndex,
        SchemaItem::ThreadsSubjectHashIndex,
        SchemaItem::ContactsEmailIndex,
        SchemaItem::ContactsLastUsedIndex,
    ]
}

/// The migrations, in the order in which they apply.
pub open spec fn known_migrations() -> Seq<MigrationModel> {
    seq![
        MigrationModel {
            version: 1,
            description: "Initial schema"@,
            items: seq![SchemaItem::MigrationsTable],
        },
        MigrationModel {
            version: 2,
            description: "Add starring and threading"@,
            items: seq![
                SchemaItem::MessagesIsStarredColumn,
                SchemaItem::MessagesThreadIdColumn,
                SchemaItem::ThreadsTable,
                SchemaItem::MessagesThreadIndex,
                SchemaItem::ThreadsAccountIndex,
            ],
        },
        MigrationModel {
            version: 3,
            description: "Add contacts table"@,
            items: seq![
                SchemaItem::ContactsTable,
                SchemaItem::ContactsEmailIndex,
                SchemaItem::ContactsLastUsedIndex,
            ],
        },
    ]
}

/// The migrations, in the order in which they apply: their versions are
/// positive and rise, and the first brings the ledger's table.
pub fn migrations() -> (list: Vec<Migration>)
    ensures
        migration_models(list@) == known_migrations(),
        rising(migration_models(list@)),
        migration_models(list@)[0].items.contains(SchemaItem::MigrationsTable),
{
    let mut first: Vec<SchemaItem> = Vec::new();
    first.push(SchemaItem::MigrationsTable);
    let mut second: Vec<SchemaItem> = Vec::new();
    second.push(SchemaItem::MessagesIsStarredColumn);
    second.push(SchemaItem::MessagesThreadIdColumn);
    second.push(SchemaItem::ThreadsTable);
    second.push(SchemaItem::MessagesThreadIndex);
    second.push(SchemaItem::ThreadsAccountIndex);
    let mut third: Vec<SchemaItem> = Vec::new();
    third.push(SchemaItem::ContactsTable);
    third.push(SchemaItem::ContactsEmailIndex);
    third.push(SchemaItem::ContactsLastUsedIndex);
    let mut list: Vec<Migration> = Vec::new();
    list.push(
        Migration { version: 1, description: String::from_str("Initial schema"), items: first },
    );
    list.push(
        Migration {
            version: 2,
            description: String::from_str("Add starring and threading"),
            items: second,
        },
    );
    list.push(
        Migration {
            version: 3,
            description: String::from_str("Add contacts table"),
            items: third,
        },
    );
    proof {
        let models = migration_models(list@);
        assert(models[0].items =~= known_migrations()[0].items);
        assert(models[1].items =~= known_migrations()[1].items);
        assert(models[2].items =~= known_migrations()[2].items);
        assert(models =~= known_migrations());
        assert(models[0].items[0] == SchemaItem::MigrationsTable);
    }
    list
}

/// The schema of the cache and the ledger of its migrations.
pub struct SchemaState {
    items: Vec<SchemaItem>,
    records: Vec<MigrationRecord>,
}

impl View for SchemaState {
    type V = SchemaModel;

    closed spec fn view(&self) -> SchemaModel {
        SchemaModel { items: self.items@.to_set(), records: record_models(self.records@) }
    }
}

impl SchemaState {
    /// Whether the state is well formed, as every state made by
    /// [`Self::new`] and changed by the functions of this module is.
    pub open spec fn wf(&self) -> bool {
        self@.wf()
    }

    /// The state of a cache that was just made: no object, no ledger.
    pub fn new() -> (s: SchemaState)
        ensures
            s.wf(),
            s@.items == Set::<SchemaItem>::empty(),
            s@.records.len() == 0,
    {
        let s = SchemaState { items: Vec::new(), records: Vec::new() };
        proof {
            assert(s@.items =~= Set::<SchemaItem>::empty());
        }
        s
    }

    /// Whether the schema holds `item`.
    pub fn has(&self, item: SchemaItem) -> (r: bool)
        ensures
            r == self@.items.contains(item),
    {
        let mut i: usize = 0;
        while i < self.items.len()
            invariant
                i <= self.items.len(),
                forall|j: int| 0 <= j < i ==> self.items@[j] != item,
            decreases self.items.len() - i,
        {
            if self.items[i] == item {
                return true;
            }
            i += 1;
        }
        false
    }

    /// The ledger, as it stands.
    pub fn ledger(&self) -> (r: &Vec<MigrationRecord>)
        ensures
            record_models(r@) == self@.records,
    {
        &self.records
    }

    /// Makes sure that the schema holds each of `items`.
    fn add_items(&mut self, items: &Vec<SchemaItem>)
        ensures
            final(self)@ == old(self)@.with_items(items@),
    {
        let mut i: usize = 0;
        proof {
            assert(items@.take(0).to_set() =~= Set::<SchemaItem>::empty());
            assert(self@.items =~= old(self)@.items.union(items@.take(0).to_set()));
        }
        while i < items.len()
            invariant
                i <= items.len(),
                self.records == old(self).records,
                self@.items == old(self)@.items.union(items@.take(i as int).to_set()),
            decreases items.len() - i,
        {
            let item = items[i];
            let ghost before = self.items@;
            let had = self.has(item);
            if !had {
                self.items.push(item);
            }
            proof {
                assert(items@.take(i + 1) =~= items@.take(i as int).push(item));
                before.lemma_push_to_set_commute(item);
                items@.take(i as int).lemma_push_to_set_commute(item);
                if had {
                    assert(before.to_set().contains(item));
                    assert(before.to_set() =~= before.to_set().insert(item));
                }
                assert(self.items@.to_set() =~= before.to_set().insert(item));
                assert(items@.take(i + 1).to_set() =~= items@.take(i as int).to_set().insert(item));
                assert(self@.items =~= old(self)@.items.union(items@.take(i + 1).to_set()));
            }
            i += 1;
        }
        proof {
            assert(items@.take(items.len() as int) =~= items@);
        }
    }

    fn position(&self, version: i64) -> (r: Option<usize>)
        requires
            self.wf(),
        ensures
            match r {
                Some(i) => self@.find(version) == Some(i as int) && i < self.records.len(),
                None => self@.find(version) is None,
            },
    {
        let mut i: usize = 0;
        while i < self.records.len()
            invariant
                i <= self.records.len(),
                self.wf(),
                forall|j: int| 0 <= j < i ==> !self@.holds(j, version),
            decreases self.records.len() - i,
        {
            if self.records[i].version == version {
                proof {
                    assert(self@.holds(i as int, version));
                    let k = choose|k: int| self@.holds(k, version);
                    assert(self@.holds(k, version));
                    assert(k == i);
                }
                return Some(i);
            }
            i += 1;
        }
        None
    }

    /// Marks `version` as applied at `now`.
    fn record_migration(&mut self, version: i64, description: &str, now: i64)
        requires
            old(self).wf(),
        ensures
            final(self).wf(),
            final(self)@ == old(self)@.record(version, description@, now),
    {
        proof {
            lemma_record(self@, version, description@, now);
        }
        let entry = MigrationRecord {
            version,
            description: String::from_str(description),
            applied_at: now,
            applied: true,
        };
        let ghost before = self@;
        match self.position(version) {
            Some(i) => {
                self.records.set(i, entry);
                proof {
                    assert(self@.records =~= before.records.update(i as int, entry@));
                }
            },
            None => {
                self.records.push(entry);
                proof {
                    assert(self@.records =~= before.records.push(entry@));
                }
            },
        }
    }
}

/// Makes sure that the schema holds every object of a new installation.
/// What is there stays; the ledger is not touched.
pub fn initialize_schema(state: &mut SchemaState)
    requires
        old(state).wf(),
    ensures
        final(state).wf(),
        final(state)@ == old(state)@.with_items(base_items()),
{
    let mut items: Vec<SchemaItem> = Vec::new();
    items.push(SchemaItem::AccountsTable);
    items.push(SchemaItem::FoldersTable);
    items.push(SchemaItem::MessagesTable);
    items.push(SchemaItem::MessagesIsStarredColumn);
    items.push(SchemaItem::MessagesThreadIdColumn);
    items.push(SchemaItem::AttachmentsTable);
    items.push(SchemaItem::MessageFlagsTable);
    items.push(SchemaItem::MessagesTextIndex);
    items.push(SchemaItem::TextIndexInsertTrigger);
    items.push(SchemaItem::TextIndexDeleteTrigger);
    items.push(SchemaItem::TextIndexUpdateTrigger);
    items.push(SchemaItem::DraftsTable);
    items.push(SchemaItem::SignaturesTable);
    items.push(SchemaItem::SettingsTable);
    items.push(SchemaItem::AttachmentDataTable);
    items.push(SchemaItem::MigrationsTable);
    items.push(SchemaItem::ThreadsTable);
    items.push(SchemaItem::ContactsTable);
    items.push(SchemaItem::MessagesDateIndex);
    items.push(SchemaItem::MessagesFolderIndex);
    items.push(SchemaItem::MessagesAccountIndex);
    items.push(SchemaItem::MessagesThreadIndex);
    items.push(SchemaItem::MessagesStarredIndex);
    items.push(SchemaItem::ThreadsAccountIndex);
    items.push(SchemaItem::ThreadsSubjectHashIndex);
    items.push(SchemaItem::ContactsEmailIndex);
    items.push(SchemaItem::ContactsLastUsedIndex);
    proof {
        assert(items@ =~= base_items());
    }
    state.add_items(&items);
}

/// The version of the schema: 0 where the schema has no ledger, otherwise
/// the largest version that the ledger marks as applied, or 0 where it
/// marks none.
pub fn get_current_version(state: &SchemaState) -> (r: Result<i64, DEmailError>)
    ensures
        r matches Ok(v) && v == state@.current_version(),
{
    if !state.has(SchemaItem::MigrationsTable) {
        return Ok(0);
    }
    let mut best: i64 = 0;
    let mut i: usize = 0;
    while i < state.records.len()
        invariant
            i <= state.records.len(),
            best == max_applied(state@.records, i as int),
        decreases state.records.len() - i,
    {
        let r = &state.records[i];
        proof {
            assert(state@.records[i as int] == r@);
        }
        if r.applied && r.version > best {
            best = r.version;
        }
        i += 1;
    }
    Ok(best)
}

/// Applies, in order, the migrations whose version is above the current
/// one, and records each at `now`. Applying them again changes nothing.
pub fn apply_migrations(state: &mut SchemaState, now: i64) -> (r: Result<(), DEmailError>)
    requires
        old(state).wf(),
    ensures
        r is Ok,
        final(state).wf(),
        final(state)@ == old(state)@.migrate(known_migrations(), now),
{
    let current = match get_current_version(state) {
        Ok(v) => v,
        Err(e) => {
            return Err(e);
        },
    };
    let list = migrations();
    let ghost models = migration_models(list@);
    let mut i: usize = 0;
    while i < list.len()
        invariant
            i <= list.len(),
            state.wf(),
            models == migration_models(list@),
            old(state)@.apply_pending(models, 0, current, now) == state@.apply_pending(
                models,
                i as int,
                current,
                now,
            ),
        decreases list.len() - i,
    {
        let m = &list[i];
        proof {
            assert(models[i as int] == m@);
        }
        if m.version > current {
            state.add_items(&m.items);
            state.record_migration(m.version, m.description.as_str(), now);
        }
        i += 1;
    }
    Ok(())
}

/// Marks the current version as not applied, so that the version falls back
/// to the one before. Fails with a database error, and changes nothing,
/// where the version is 0. The objects of the schema stay.
pub fn rollback_last_migration(state: &mut SchemaState) -> (r: Result<(), DEmailError>)
    requires
        old(state).wf(),
    ensures
        final(state).wf(),
        r is Ok == (old(state)@.current_version() != 0),
        r is Ok ==> final(state)@ == old(state)@.rollback(),
        r matches Err(e) ==> final(state)@ == old(state)@ && e@.kind == ErrorKind::Database,
{
    let current = match get_current_version(state) {
        Ok(v) => v,
        Err(e) => {
            return Err(e);
        },
    };
    if current == 0 {
        return Err(DEmailError::Database(String::from_str("no migration is applied")));
    }
    let ghost before = state@;
    match state.position(current) {
        Some(i) => {
            let r = &state.records[i];
            let entry = MigrationRecord {
                version: r.version,
                description: r.description.clone(),
                applied_at: r.applied_at,
                applied: false,
            };
            state.records.set(i, entry);
            proof {
                assert(before.holds(i as int, current));
                assert(state@.records =~= before.records.update(i as int, entry@));
                assert forall|j: int| 0 <= j < before.records.len() implies state@.records[j]
                    == before.rollback().records[j] by {
                    if j != i && before.records[j].version == current {
                        assert(before.records[j].version != before.records[i as int].version);
                    }
                }
                assert(state@.records =~= before.rollback().records);
                assert forall|a: int, b: int|
                    0 <= a < state@.records.len() && 0 <= b < state@.records.len() && a
                        != b implies (#[trigger] state@.records[a]).version != (
                #[trigger] state@.records[b]).version by {
                    assert(before.records[a].version != before.records[b].version);
                }
            }
        },
        None => {
            proof {
                lemma_max_applied(before.records, before.records.len() as int);
                let k = choose|k: int|
                    0 <= k < before.records.len() && (#[trigger] before.records[k]).applied
                        && before.records[k].version == current;
                assert(before.holds(k, current));
            }
        },
    }
    Ok(())
}

impl SchemaState {
    /// The objects of the schema, in the order in which they were added.
    pub fn items(&self) -> (r: &Vec<SchemaItem>)
        ensures
            r@.to_set() == self@.items,
    {
        &self.items
    }

    /// The state that holds the objects `items` and the ledger `records`;
    /// `None` where a version stands in the ledger twice.
    pub fn restore(items: Vec<SchemaItem>, records: Vec<MigrationRecord>) -> (r: Option<SchemaState>)
        ensures
            match r {
                Some(s) => s.wf() && s@.items == items@.to_set() && s@.records == record_models(
                    records@,
                ),
                None => !(SchemaModel {
                    items: items@.to_set(),
                    records: record_models(records@),
                }).wf(),
            },
    {
        let ghost models = record_models(records@);
        let mut i: usize = 0;
        while i < records.len()
            invariant
                i <= records.len(),
                models == record_models(records@),
                forall|a: int, b: int|
                    0 <= a < i && 0 <= b < i && a != b ==> (#[trigger] models[a]).version != (
                    #[trigger] models[b]).version,
            decreases records.len() - i,
        {
            let mut k: usize = 0;
            while k < i
                invariant
                    k <= i < records.len(),
                    models == record_models(records@),
                    forall|a: int| 0 <= a < k ==> (#[trigger] models[a]).version
                        != models[i as int].version,
                decreases i - k,
            {
                proof {
                    assert(models[k as int] == records@[k as int]@);
                    assert(models[i as int] == records@[i as int]@);
                }
                if records[k].version == records[i].version {
                    proof {
                        let m = SchemaModel { items: items@.to_set(), records: models };
                        assert(m.records[k as int].version == m.records[i as int].version);
                        assert(!m.wf());
                    }
                    return None;
                }
                k += 1;
            }
            i += 1;
        }
        Some(SchemaState { items, records })
    }
}

impl SchemaItem {
    /// Whether the object is a column that is added to a table that is
    /// there.
    pub open spec fn is_added_column(self) -> bool {
        self == SchemaItem::MessagesIsStarredColumn || self == SchemaItem::MessagesThreadIdColumn
    }

    /// Whether a failure to make the object is passed over: a column cannot
    /// be added twice, so a failure to add one means that it is there; a
    /// failure to make any other object is an error.
    pub fn may_exist(&self) -> (r: bool)
        ensures
            r == self.is_added_column(),
    {
        match self {
            SchemaItem::MessagesIsStarredColumn => true,
            SchemaItem::MessagesThreadIdColumn => true,
            _ => false,
        }
    }
}

} // verus!
