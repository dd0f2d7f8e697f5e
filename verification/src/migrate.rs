//! Forward-only schema migration ledger.
//!
//! The schema evolves through an ordered list of versioned, named, one-way
//! changes. The ledger records which versions have been applied; at startup
//! it applies, in ascending order, exactly the versions not yet recorded.
//! A version is applied at most once, ever; there are no rollbacks.

use vstd::prelude::*;

verus! {

/// One named, versioned, one-way schema change.
#[derive(Debug)]
pub struct Migration {
    pub version: i64,
    pub description: &'static str,
    pub sql: &'static str,
}

/// Mathematical image of a [`Migration`].
pub struct MigrationView {
    pub version: int,
    pub description: Seq<char>,
    pub sql: Seq<char>,
}

impl View for Migration {
    type V = MigrationView;

    open spec fn view(&self) -> MigrationView {
        MigrationView { version: self.version as int, description: self.description@, sql: self.sql@ }
    }
}

/// The durable record that one schema version has been applied.
#[derive(Debug)]
pub struct MigrationRecord {
    pub version: i64,
    pub description: String,
    pub applied_at: String,
}

/// Mathematical image of a [`MigrationRecord`].
pub struct RecordView {
    pub version: int,
    pub description: Seq<char>,
    pub applied_at: Seq<char>,
}

impl View for MigrationRecord {
    type V = RecordView;

    open spec fn view(&self) -> RecordView {
        RecordView { version: self.version as int, description: self.description@, applied_at: self.applied_at@ }
    }
}

/// A schema-change list is valid when its versions are exactly
/// 1, 2, 3, ... in order: contiguous and strictly increasing from 1.
pub open spec fn valid_migration_seq(migs: Seq<MigrationView>) -> bool {
    forall|i: int| 0 <= i < migs.len() ==> (#[trigger] migs[i].version) == i + 1
}

/// The records of a well-formed ledger hold versions 1, 2, ... n: each
/// version recorded exactly once, in the order it was applied.
pub open spec fn valid_record_seq(records: Seq<RecordView>) -> bool {
    forall|i: int| 0 <= i < records.len() ==> (#[trigger] records[i].version) == i + 1
}

/// The record a pending migration leaves behind when applied at `applied_at`.
pub open spec fn record_of(m: MigrationView, applied_at: Seq<char>) -> RecordView {
    RecordView { version: m.version, description: m.description, applied_at }
}

/// The ledger after one startup: the old records, extended by one record for
/// each migration past the highest version already recorded.
pub open spec fn apply_model(
    records: Seq<RecordView>,
    migs: Seq<MigrationView>,
    applied_at: Seq<char>,
) -> Seq<RecordView> {
    records + migs.skip(records.len() as int).map_values(|m: MigrationView| record_of(m, applied_at))
}

/// The versions newly applied by one startup.
pub open spec fn applied_versions_model(records: Seq<RecordView>, migs: Seq<MigrationView>) -> Seq<int> {
    Seq::new((migs.len() - records.len()) as nat, |k: int| records.len() + k + 1)
}

/// A startup fails fatally when the migration list is not valid, or when the
/// ledger has already recorded more versions than the list offers (the store
/// was produced by a newer schema than this process knows).
#[derive(Debug, PartialEq, Eq, Structural)]
pub enum MigrationError {
    InvalidSequence,
    UnknownVersions,
}

/// Ordered log of the schema versions applied so far.
pub struct MigrationLedger {
    records: Vec<MigrationRecord>,
}

impl View for MigrationLedger {
    type V = Seq<RecordView>;

    closed spec fn view(&self) -> Seq<RecordView> {
        self.records@.map_values(|r: MigrationRecord| r@)
    }
}

impl MigrationLedger {
    pub open spec fn wf(&self) -> bool {
        valid_record_seq(self@)
    }

    /// An empty ledger: no version applied yet (schema state 0).
    pub fn new() -> (r: MigrationLedger)
        ensures
            r@ == Seq::<RecordView>::empty(),
            r.wf(),
    {
        let r = MigrationLedger { records: Vec::new() };
        proof {
            assert(r@ =~= Seq::<RecordView>::empty());
        }
        r
    }

    /// How many versions have been applied (the current schema version).
    pub fn applied_count(&self) -> (n: usize)
        ensures
            n == self@.len(),
    {
        self.records.len()
    }

    /// The applied records, oldest first.
    pub fn records(&self) -> (r: &Vec<MigrationRecord>)
        ensures
            r@.map_values(|x: MigrationRecord| x@) == self@,
    {
        &self.records
    }

    /// Applies, in ascending order, every migration whose version is not yet
    /// recorded, and records each exactly once; versions already recorded are
    /// skipped. Returns the versions newly applied, oldest first. On failure
    /// nothing takes effect: startup must then abort before serving any other
    /// operation.
    pub fn apply_pending(&mut self, migrations: &Vec<Migration>, applied_at: &String) -> (r: Result<
        Vec<i64>,
        MigrationError,
    >)
        requires
            old(self).wf(),
        ensures
            final(self).wf(),
            r is Ok <==> (valid_migration_seq(migrations@.map_values(|m: Migration| m@))
                && old(self)@.len() <= migrations@.len()),
            r is Ok ==> {
                &&& final(self)@ == apply_model(
                    old(self)@,
                    migrations@.map_values(|m: Migration| m@),
                    applied_at@,
                )
                &&& r->Ok_0@.map_values(|v: i64| v as int) == applied_versions_model(
                    old(self)@,
                    migrations@.map_values(|m: Migration| m@),
                )
            },
            r is Err ==> *final(self) == *old(self),
            r is Err ==> (r->Err_0 is UnknownVersions <==> (valid_migration_seq(
                migrations@.map_values(|m: Migration| m@),
            ) && old(self)@.len() > migrations@.len())),
    {
        let ghost migs: Seq<MigrationView> = migrations@.map_values(|m: Migration| m@);
        if (migrations.len() as u64) > (i64::MAX as u64) {
            proof {
                // A valid list cannot be this long: at that index the version
                // would have to exceed what an i64 can hold.
                assert(migs.len() == migrations@.len());
                assert(migs[i64::MAX as int] == migrations@[i64::MAX as int]@);
                assert(migs[i64::MAX as int].version <= i64::MAX);
                assert(!valid_migration_seq(migs));
            }
            return Err(MigrationError::InvalidSequence);
        }
        let mut i: usize = 0;
        while i < migrations.len()
            invariant
                *self == *old(self),
                old(self).wf(),
                i <= migrations.len(),
                migrations@.len() <= i64::MAX,
                migs == migrations@.map_values(|m: Migration| m@),
                forall|k: int| 0 <= k < i ==> (#[trigger] migs[k].version) == k + 1,
            decreases migrations.len() - i,
        {
            let expected: i64 = (i as i64) + 1;
            if migrations[i].version != expected {
                proof {
                    assert(migs[i as int].version != i + 1);
                    assert(!valid_migration_seq(migs));
                }
                return Err(MigrationError::InvalidSequence);
            }
            proof {
                assert(migs[i as int].version == i + 1);
            }
            i = i + 1;
        }
        if migrations.len() < self.records.len() {
            return Err(MigrationError::UnknownVersions);
        }
        let mut applied: Vec<i64> = Vec::new();
        let mut j: usize = self.records.len();
        let ghost old_records: Seq<RecordView> = self@;
        proof {
            assert(self@ =~= old_records + migs.subrange(
                old_records.len() as int,
                j as int,
            ).map_values(|m: MigrationView| record_of(m, applied_at@)));
            assert(applied@.map_values(|v: i64| v as int) =~= Seq::new(
                (j - old_records.len()) as nat,
                |k: int| old_records.len() + k + 1,
            ));
        }
        while j < migrations.len()
            invariant
                old_records.len() <= j <= migrations.len(),
                migs == migrations@.map_values(|m: Migration| m@),
                valid_migration_seq(migs),
                valid_record_seq(old_records),
                self@ == old_records + migs.subrange(old_records.len() as int, j as int).map_values(
                    |m: MigrationView| record_of(m, applied_at@),
                ),
                applied@.map_values(|v: i64| v as int) == Seq::new(
                    (j - old_records.len()) as nat,
                    |k: int| old_records.len() + k + 1,
                ),
            decreases migrations.len() - j,
        {
            let ghost pre = self@;
            let ghost pre_applied = applied@;
            let m = &migrations[j];
            self.records.push(
                MigrationRecord {
                    version: m.version,
                    description: m.description.to_owned(),
                    applied_at: applied_at.clone(),
                },
            );
            applied.push(m.version);
            proof {
                let l: int = old_records.len() as int;
                assert(migs[j as int] == migrations@[j as int]@);
                assert(migs[j as int].version == j + 1);
                assert(applied@ =~= pre_applied.push(migrations@[j as int].version));
                assert(self@ =~= pre.push(record_of(migs[j as int], applied_at@)));
                assert(migs.subrange(l, j as int + 1) =~= migs.subrange(l, j as int).push(
                    migs[j as int],
                ));
                assert(self@ =~= old_records + migs.subrange(l, j as int + 1).map_values(
                    |m: MigrationView| record_of(m, applied_at@),
                ));
                assert(pre_applied.map_values(|v: i64| v as int).len() == j - l);
                assert forall|k: int| 0 <= k < j + 1 - l implies (#[trigger] applied@[k]) as int == l
                    + k + 1 by {
                    if k < j - l {
                        assert(pre_applied.map_values(|v: i64| v as int)[k] == l + k + 1);
                        assert(applied@[k] == pre_applied[k]);
                    } else {
                        assert(applied@[k] == migrations@[j as int].version);
                    }
                }
                assert(applied@.map_values(|v: i64| v as int) =~= Seq::new(
                    (j + 1 - old_records.len()) as nat,
                    |k: int| old_records.len() + k + 1,
                ));
            }
            j = j + 1;
        }
        proof {
            assert(migs.subrange(old_records.len() as int, migs.len() as int) =~= migs.skip(
                old_records.len() as int,
            ));
            assert(self@ =~= apply_model(old_records, migs, applied_at@));
            assert(valid_record_seq(self@)) by {
                assert forall|k: int| 0 <= k < self@.len() implies (#[trigger] self@[k].version) == k
                    + 1 by {
                    if k >= old_records.len() {
                        assert(self@[k] == record_of(migs[k], applied_at@));
                    }
                }
            }
        }
        Ok(applied)
    }
}

pub const MIG01_DESC: &'static str = "create_images_table";

pub const MIG01_SQL: &'static str = "CREATE TABLE images (
                id INTEGER PRIMARY KEY AUTOINCREMENT,
                hash TEXT UNIQUE NOT NULL,
                data BLOB NOT NULL,
                mime_type TEXT NOT NULL,
                size INTEGER NOT NULL,
                created_at DATETIME DEFAULT CURRENT_TIMESTAMP
            );";

pub const MIG02_DESC: &'static str = "create_image_references_table";

pub const MIG02_SQL: &'static str = "CREATE TABLE image_references (
                id INTEGER PRIMARY KEY AUTOINCREMENT,
                image_id INTEGER NOT NULL,
                conversation_id TEXT NOT NULL,
                created_at DATETIME DEFAULT CURRENT_TIMESTAMP,
                FOREIGN KEY (image_id) REFERENCES images (id) ON DELETE CASCADE,
                UNIQUE(image_id, conversation_id)
            );";

pub const MIG03_DESC: &'static str = "create_images_hash_index";

pub const MIG03_SQL: &'static str = "CREATE INDEX idx_images_hash ON images(hash);";

pub const MIG04_DESC: &'static str = "create_image_references_conversation_index";

pub const MIG04_SQL: &'static str =
    "CREATE INDEX idx_image_references_conversation ON image_references(conversation_id);";

pub const MIG05_DESC: &'static str = "create_app_settings_table";

pub const MIG05_SQL: &'static str = "CREATE TABLE app_settings (
                id INTEGER PRIMARY KEY AUTOINCREMENT,
                key TEXT UNIQUE NOT NULL,
                value TEXT NOT NULL,
                created_at DATETIME DEFAULT CURRENT_TIMESTAMP,
                updated_at DATETIME DEFAULT CURRENT_TIMESTAMP
            );";

pub const MIG06_DESC: &'static str = "create_conversations_table";

pub const MIG06_SQL: &'static str = "CREATE TABLE conversations (
                id TEXT PRIMARY KEY,
                title TEXT NOT NULL,
                model TEXT NOT NULL,
                enabled_tools TEXT, -- JSON string for tool configuration
                archived BOOLEAN DEFAULT FALSE,
                archived_at DATETIME,
                created_at DATETIME NOT NULL,
                updated_at DATETIME NOT NULL
            );";

pub const MIG07_DESC: &'static str = "create_conversation_messages_table";

pub const MIG07_SQL: &'static str = "CREATE TABLE conversation_messages (
                id TEXT PRIMARY KEY,
                conversation_id TEXT NOT NULL,
                role TEXT NOT NULL, -- 'user' or 'assistant'
                content TEXT NOT NULL,
                timestamp INTEGER NOT NULL,
                model TEXT,
                image_ids TEXT, -- JSON array of image IDs
                created_at DATETIME DEFAULT CURRENT_TIMESTAMP,
                FOREIGN KEY (conversation_id) REFERENCES conversations (id) ON DELETE CASCADE
            );";

pub const MIG08_DESC: &'static str = "create_models_cache_table";

pub const MIG08_SQL: &'static str = "CREATE TABLE models_cache (
                id INTEGER PRIMARY KEY AUTOINCREMENT,
                provider_key TEXT UNIQUE NOT NULL, -- provider:baseURL combination
                models_data TEXT NOT NULL, -- JSON string of models array
                timestamp INTEGER NOT NULL,
                created_at DATETIME DEFAULT CURRENT_TIMESTAMP,
                updated_at DATETIME DEFAULT CURRENT_TIMESTAMP
            );";

pub const MIG09_DESC: &'static str = "create_favorite_models_table";

pub const MIG09_SQL: &'static str = "CREATE TABLE favorite_models (
                id INTEGER PRIMARY KEY AUTOINCREMENT,
                provider_key TEXT NOT NULL, -- provider:baseURL combination
                model_id TEXT NOT NULL,
                created_at DATETIME DEFAULT CURRENT_TIMESTAMP,
                UNIQUE(provider_key, model_id)
            );";

pub const MIG10_DESC: &'static str = "create_migration_metadata_table";

pub const MIG10_SQL: &'static str = "CREATE TABLE migration_metadata (
                id INTEGER PRIMARY KEY AUTOINCREMENT,
                key TEXT UNIQUE NOT NULL,
                value TEXT NOT NULL,
                created_at DATETIME DEFAULT CURRENT_TIMESTAMP,
                updated_at DATETIME DEFAULT CURRENT_TIMESTAMP
            );";

pub const MIG11_DESC: &'static str = "create_indexes";

pub const MIG11_SQL: &'static str =
    "CREATE INDEX idx_conversations_archived ON conversations(archived);
                  CREATE INDEX idx_conversations_updated_at ON conversations(updated_at);
                  CREATE INDEX idx_conversation_messages_conversation_id ON conversation_messages(conversation_id);
                  CREATE INDEX idx_conversation_messages_timestamp ON conversation_messages(timestamp);
                  CREATE INDEX idx_models_cache_timestamp ON models_cache(timestamp);
                  CREATE INDEX idx_favorite_models_provider_key ON favorite_models(provider_key);";

pub const MIG12_DESC: &'static str = "add_tool_fields_to_conversation_messages";

pub const MIG12_SQL: &'static str =
    "ALTER TABLE conversation_messages ADD COLUMN tool_name TEXT;
                  ALTER TABLE conversation_messages ADD COLUMN tool_call TEXT; -- JSON for tool call arguments
                  ALTER TABLE conversation_messages ADD COLUMN tool_result TEXT; -- JSON for tool result";

/// The full schema-change plan, version by version.
pub open spec fn migration_plan() -> Seq<MigrationView> {
    seq![
        MigrationView { version: 1, description: MIG01_DESC@, sql: MIG01_SQL@ },
        MigrationView { version: 2, description: MIG02_DESC@, sql: MIG02_SQL@ },
        MigrationView { version: 3, description: MIG03_DESC@, sql: MIG03_SQL@ },
        MigrationView { version: 4, description: MIG04_DESC@, sql: MIG04_SQL@ },
        MigrationView { version: 5, description: MIG05_DESC@, sql: MIG05_SQL@ },
        MigrationView { version: 6, description: MIG06_DESC@, sql: MIG06_SQL@ },
        MigrationView { version: 7, description: MIG07_DESC@, sql: MIG07_SQL@ },
        MigrationView { version: 8, description: MIG08_DESC@, sql: MIG08_SQL@ },
        MigrationView { version: 9, description: MIG09_DESC@, sql: MIG09_SQL@ },
        MigrationView { version: 10, description: MIG10_DESC@, sql: MIG10_SQL@ },
        MigrationView { version: 11, description: MIG11_DESC@, sql: MIG11_SQL@ },
        MigrationView { version: 12, description: MIG12_DESC@, sql: MIG12_SQL@ },
    ]
}

/// The ordered list of schema changes this application ships with.
pub fn get_migrations() -> (r: Vec<Migration>)
    ensures
        r@.map_values(|m: Migration| m@) == migration_plan(),
        valid_migration_seq(r@.map_values(|m: Migration| m@)),
{
    let r = vec![
        Migration { version: 1, description: MIG01_DESC, sql: MIG01_SQL },
        Migration { version: 2, description: MIG02_DESC, sql: MIG02_SQL },
        Migration { version: 3, description: MIG03_DESC, sql: MIG03_SQL },
        Migration { version: 4, description: MIG04_DESC, sql: MIG04_SQL },
        Migration { version: 5, description: MIG05_DESC, sql: MIG05_SQL },
        Migration { version: 6, description: MIG06_DESC, sql: MIG06_SQL },
        Migration { version: 7, description: MIG07_DESC, sql: MIG07_SQL },
        Migration { version: 8, description: MIG08_DESC, sql: MIG08_SQL },
        Migration { version: 9, description: MIG09_DESC, sql: MIG09_SQL },
        Migration { version: 10, description: MIG10_DESC, sql: MIG10_SQL },
        Migration { version: 11, description: MIG11_DESC, sql: MIG11_SQL },
        Migration { version: 12, description: MIG12_DESC, sql: MIG12_SQL },
    ];
    proof {
        assert(r@.map_values(|m: Migration| m@) =~= migration_plan());
        assert(valid_migration_seq(migration_plan())) by {
            assert forall|i: int| 0 <= i < migration_plan().len() implies (
            #[trigger] migration_plan()[i].version) == i + 1 by {
            }
        }
    }
    r
}

/// Applying the same migration list a second time changes nothing: each
/// version's record exists exactly once and no change is re-executed.
pub proof fn lemma_apply_idempotent(
    records: Seq<RecordView>,
    migs: Seq<MigrationView>,
    t1: Seq<char>,
    t2: Seq<char>,
)
    requires
        valid_record_seq(records),
        valid_migration_seq(migs),
        records.len() <= migs.len(),
    ensures
        apply_model(apply_model(records, migs, t1), migs, t2) == apply_model(records, migs, t1),
        applied_versions_model(apply_model(records, migs, t1), migs) == Seq::<int>::empty(),
{
    let once = apply_model(records, migs, t1);
    assert(once.len() == migs.len());
    assert(migs.skip(once.len() as int) =~= Seq::<MigrationView>::empty());
    assert(apply_model(once, migs, t2) =~= once);
    assert(applied_versions_model(once, migs) =~= Seq::<int>::empty());
}

} // verus!
