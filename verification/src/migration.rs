//! Versioned, forward-only schema migrations.
//!
//! A [`Changeset`] is one schema version: a version number, a label, and the
//! ordered statements that realise it. The engine decides which changesets to
//! run against a store whose ledger of applied versions is known, in strictly
//! ascending version order, each version exactly once. Statement execution
//! itself is the store's job: the caller executes the statements of the
//! changeset the engine hands out and reports success or failure back, so the
//! engine's bookkeeping is verified for every possible execution outcome.

use vstd::prelude::*;
use vstd::string::StringExecFns;

verus! {

/// One schema version: its number, a human label, and the ordered
/// statements that bring a store from the previous version to this one.
pub struct Changeset {
    pub version: u64,
    pub description: String,
    pub statements: Vec<String>,
}

/// Why a migration run failed.
pub enum MigrationError {
    /// The store could not be reached at all.
    ConnectionFailed,
    /// A statement of the changeset with this version failed; the version was
    /// not recorded as applied.
    StatementFailed { version: u64, cause: String },
    /// The ledger records a version higher than any known changeset: the
    /// store was written by a newer build, and the engine refuses to proceed.
    LedgerCorrupt { recorded: u64, max_known: u64 },
}

/// The outcome the store reports for executing one changeset's statements
/// as a single atomic unit.
pub enum StatementOutcome {
    Success,
    Failure(String),
}

/// The changeset list is well formed: versions are at least 1 and strictly
/// ascending.
pub open spec fn versions_ascending(cs: Seq<Changeset>) -> bool {
    &&& forall|i: int| 0 <= i < cs.len() ==> #[trigger] cs[i].version >= 1
    &&& forall|i: int, j: int|
        0 <= i < j < cs.len() ==> #[trigger] cs[i].version < #[trigger] cs[j].version
}

/// A ledger is well formed: the recorded versions are strictly ascending
/// (so in particular distinct), as the append-only engine writes them.
pub open spec fn ledger_wf(l: Seq<u64>) -> bool {
    forall|i: int, j: int| 0 <= i < j < l.len() ==> #[trigger] l[i] < #[trigger] l[j]
}

/// The highest version a well-formed ledger records, 0 for an empty ledger.
pub open spec fn ledger_max(l: Seq<u64>) -> u64 {
    if l.len() == 0 {
        0
    } else {
        l[l.len() - 1]
    }
}

/// The highest version the changeset list knows, 0 for an empty list.
pub open spec fn known_max(cs: Seq<Changeset>) -> u64 {
    if cs.len() == 0 {
        0
    } else {
        cs[cs.len() - 1].version
    }
}

/// The versions of a changeset list, in order.
pub open spec fn versions_of(cs: Seq<Changeset>) -> Seq<u64> {
    cs.map_values(|c: Changeset| c.version)
}

/// The suffix of the changeset list that still has to run against a store
/// whose highest recorded version is `m`: everything from the first changeset
/// with a version above `m` on.
pub open spec fn pending_of(cs: Seq<Changeset>, m: u64) -> Seq<Changeset>
    decreases cs.len(),
{
    if cs.len() == 0 {
        cs
    } else if cs[0].version <= m {
        pending_of(cs.drop_first(), m)
    } else {
        cs
    }
}

/// For an ascending list, the pending suffix is exactly the changesets whose
/// version is above `m`, and it keeps the list's order.
pub proof fn lemma_pending_of(cs: Seq<Changeset>, m: u64)
    requires
        versions_ascending(cs),
    ensures
        versions_ascending(pending_of(cs, m)),
        forall|i: int|
            0 <= i < pending_of(cs, m).len() ==> #[trigger] pending_of(cs, m)[i].version > m,
        exists|k: int|
            0 <= k <= cs.len() && pending_of(cs, m) == cs.subrange(k, cs.len() as int)
                && (forall|i: int| 0 <= i < k ==> #[trigger] cs[i].version <= m),
    decreases cs.len(),
{
    if cs.len() == 0 {
        assert(pending_of(cs, m) == cs.subrange(0, cs.len() as int));
    } else if cs[0].version <= m {
        let rest = cs.drop_first();
        assert(versions_ascending(rest)) by {
            assert(forall|i: int| 0 <= i < rest.len() ==> #[trigger] rest[i] == cs[i + 1]);
        }
        lemma_pending_of(rest, m);
        let k0 = choose|k: int|
            0 <= k <= rest.len() && pending_of(rest, m) == rest.subrange(k, rest.len() as int)
                && (forall|i: int| 0 <= i < k ==> #[trigger] rest[i].version <= m);
        assert(pending_of(cs, m) == cs.subrange(k0 + 1, cs.len() as int)) by {
            assert(rest.subrange(k0, rest.len() as int) =~= cs.subrange(k0 + 1, cs.len() as int));
        }
        assert(forall|i: int| 0 <= i < k0 + 1 ==> #[trigger] cs[i].version <= m) by {
            assert(forall|i: int| 1 <= i < k0 + 1 ==> cs[i] == rest[i - 1]);
        }
    } else {
        assert(pending_of(cs, m) == cs.subrange(0, cs.len() as int)) by {
            assert(cs =~= cs.subrange(0, cs.len() as int));
        }
        assert(forall|i: int|
            0 <= i < pending_of(cs, m).len() ==> #[trigger] pending_of(cs, m)[i].version > m) by {
            assert(forall|i: int| 0 < i < cs.len() ==> cs[0].version < #[trigger] cs[i].version);
        }
    }
}

/// For an ascending list, the pending suffix is exactly the suffix starting
/// at the split index `k`: everything before `k` is at most `m`, everything
/// from `k` on is above `m`.
pub proof fn lemma_pending_of_split(cs: Seq<Changeset>, m: u64, k: int)
    requires
        versions_ascending(cs),
        0 <= k <= cs.len(),
        forall|j: int| 0 <= j < k ==> #[trigger] cs[j].version <= m,
        k == cs.len() || cs[k].version > m,
    ensures
        pending_of(cs, m) == cs.subrange(k, cs.len() as int),
    decreases cs.len(),
{
    if cs.len() == 0 {
        assert(pending_of(cs, m) =~= cs.subrange(0, 0));
    } else if k == 0 {
        assert(cs[0].version > m) by {
            if cs.len() > 1 {
                assert(cs[0].version < cs[cs.len() - 1].version);
            }
        }
        assert(pending_of(cs, m) =~= cs.subrange(0, cs.len() as int));
    } else {
        let rest = cs.drop_first();
        assert(versions_ascending(rest)) by {
            assert(forall|i: int| 0 <= i < rest.len() ==> #[trigger] rest[i] == cs[i + 1]);
        }
        assert(forall|j: int| 0 <= j < k - 1 ==> #[trigger] rest[j].version <= m) by {
            assert(forall|j: int| 0 <= j < k - 1 ==> rest[j] == cs[j + 1]);
        }
        assert(k - 1 == rest.len() || rest[k - 1].version > m);
        lemma_pending_of_split(rest, m, k - 1);
        assert(rest.subrange(k - 1, rest.len() as int) =~= cs.subrange(k, cs.len() as int));
    }
}

/// If every version of the list is at most `m`, nothing is pending.
pub proof fn lemma_pending_of_empty(cs: Seq<Changeset>, m: u64)
    requires
        versions_ascending(cs),
        forall|i: int| 0 <= i < cs.len() ==> #[trigger] cs[i].version <= m,
    ensures
        pending_of(cs, m).len() == 0,
{
    lemma_pending_of_split(cs, m, cs.len() as int);
}

/// The migration engine over one store.
///
/// Constructed from the ledger the store currently holds (the versions it
/// records as applied, in the ascending order the engine wrote them) and the
/// build-time changeset list. The caller then repeatedly takes
/// [`Engine::next_changeset`], executes its statements against the store as
/// one atomic unit, and reports back through [`Engine::record_applied`] or
/// [`Engine::record_failure`]; the engine mirrors the ledger the store ends
/// up with.
pub struct Engine {
    changesets: Vec<Changeset>,
    ledger: Vec<u64>,
    next: usize,
    failed: bool,
}

impl Engine {
    /// The engine's internal invariant.
    pub closed spec fn wf(self) -> bool {
        &&& versions_ascending(self.changesets@)
        &&& ledger_wf(self.ledger@)
        &&& self.next <= self.changesets@.len()
        &&& forall|i: int|
            self.next <= i < self.changesets@.len()
                ==> (#[trigger] self.changesets@[i].version) > ledger_max(self.ledger@)
    }

    /// The ledger as the engine knows it: the versions recorded as applied.
    pub closed spec fn ledger(self) -> Seq<u64> {
        self.ledger@
    }

    /// The changesets that still have to run, in order.
    pub closed spec fn pending(self) -> Seq<Changeset> {
        self.changesets@.subrange(self.next as int, self.changesets@.len() as int)
    }

    /// Whether a changeset's statements have failed; the engine then stops
    /// handing out work.
    pub closed spec fn has_failed(self) -> bool {
        self.failed
    }

    /// The highest version the engine's changeset list knows.
    pub closed spec fn max_known(self) -> u64 {
        known_max(self.changesets@)
    }

    /// Whether the ledger records a version above every known changeset.
    pub closed spec fn is_corrupt(self) -> bool {
        ledger_max(self.ledger@) > known_max(self.changesets@)
    }

    /// A well-formed engine's visible parts are themselves well formed.
    pub proof fn lemma_wf_facts(&self)
        requires
            self.wf(),
        ensures
            ledger_wf(self.ledger()),
            versions_ascending(self.pending()),
            forall|i: int|
                0 <= i < self.pending().len()
                    ==> (#[trigger] self.pending()[i].version) > ledger_max(self.ledger()),
    {
    }

    /// Start a run: determine the highest version already recorded and skip
    /// every changeset at or below it, so that exactly the changesets above
    /// the recorded maximum are pending, in ascending order.
    pub fn new(initial_ledger: Vec<u64>, changesets: Vec<Changeset>) -> (e: Engine)
        requires
            versions_ascending(changesets@),
            ledger_wf(initial_ledger@),
        ensures
            e.wf(),
            !e.has_failed(),
            e.ledger() == initial_ledger@,
            e.pending() == pending_of(changesets@, ledger_max(initial_ledger@)),
            e.max_known() == known_max(changesets@),
            e.is_corrupt() == (ledger_max(initial_ledger@) > known_max(changesets@)),
    {
        let m: u64 = if initial_ledger.len() == 0 {
            0
        } else {
            initial_ledger[initial_ledger.len() - 1]
        };
        let mut k: usize = 0;
        while k < changesets.len() && changesets[k].version <= m
            invariant
                k <= changesets@.len(),
                versions_ascending(changesets@),
                forall|j: int| 0 <= j < k ==> #[trigger] changesets@[j].version <= m,
            decreases changesets@.len() - k,
        {
            k = k + 1;
        }
        proof {
            lemma_pending_of_split(changesets@, m, k as int);
        }
        Engine { changesets, ledger: initial_ledger, next: k, failed: false }
    }

    /// The changeset whose statements the caller should execute next, if
    /// any: always the pending one with the lowest version.
    pub fn next_changeset(&self) -> (r: Option<&Changeset>)
        requires
            self.wf(),
            !self.has_failed(),
        ensures
            match r {
                Some(c) => self.pending().len() > 0 && *c == self.pending()[0],
                None => self.pending().len() == 0,
            },
    {
        if self.next < self.changesets.len() {
            Some(&self.changesets[self.next])
        } else {
            None
        }
    }

    /// The store executed the current changeset's statements and, atomically
    /// with them, appended the applied-version record: the engine appends the
    /// same version to its ledger and moves on.
    pub fn record_applied(&mut self)
        requires
            old(self).wf(),
            !old(self).has_failed(),
            old(self).pending().len() > 0,
        ensures
            final(self).wf(),
            !final(self).has_failed(),
            final(self).ledger() == old(self).ledger().push(old(self).pending()[0].version),
            final(self).pending() == old(self).pending().drop_first(),
            final(self).is_corrupt() == old(self).is_corrupt(),
    {
        let v: u64 = self.changesets[self.next].version;
        self.ledger.push(v);
        let n: usize = self.changesets.len();
        proof {
            assert(old(self).pending().len() == self.changesets@.len() - self.next);
            assert(self.next < n);
        }
        self.next = self.next + 1;
        proof {
            assert(forall|i: int|
                0 <= i < old(self).ledger().len() ==> #[trigger] old(self).ledger()[i] < v);
            assert(ledger_max(self.ledger@) == v);
            assert(self.pending() =~= old(self).pending().drop_first());
            if self.changesets@.len() > 0 {
                assert(old(self).changesets@[old(self).next as int].version <= known_max(
                    self.changesets@)) by {
                    if (old(self).next as int) < self.changesets@.len() - 1 {
                        assert(self.changesets@[old(self).next as int].version < self.changesets@[
                            self.changesets@.len() - 1].version);
                    }
                }
            }
        }
    }

    /// A statement of the current changeset failed: nothing was recorded for
    /// its version, the ledger is unchanged, and the run stops with an error
    /// naming the failed version.
    pub fn record_failure(&mut self, cause: String) -> (e: MigrationError)
        requires
            old(self).wf(),
            !old(self).has_failed(),
            old(self).pending().len() > 0,
        ensures
            final(self).wf(),
            final(self).has_failed(),
            final(self).ledger() == old(self).ledger(),
            final(self).pending() == old(self).pending(),
            e matches MigrationError::StatementFailed { version, cause: c }
                && version == old(self).pending()[0].version && c@ == cause@,
    {
        let v: u64 = self.changesets[self.next].version;
        self.failed = true;
        MigrationError::StatementFailed { version: v, cause }
    }

    /// The run is complete when nothing is pending and nothing failed.
    pub fn is_complete(&self) -> (b: bool)
        requires
            self.wf(),
        ensures
            b == (!self.has_failed() && self.pending().len() == 0),
    {
        !self.failed && self.next == self.changesets.len()
    }

    /// Refuses a store written by a newer build: reports the corruption
    /// error exactly when the recorded maximum exceeds every known version.
    pub fn corruption_error(&self) -> (r: Option<MigrationError>)
        requires
            self.wf(),
        ensures
            match r {
                Some(e) => e matches MigrationError::LedgerCorrupt { recorded, max_known }
                    && self.is_corrupt() && recorded == ledger_max(self.ledger())
                    && max_known == self.max_known() && recorded > max_known,
                None => !self.is_corrupt(),
            },
    {
        let recorded: u64 = if self.ledger.len() == 0 {
            0
        } else {
            self.ledger[self.ledger.len() - 1]
        };
        let max_known: u64 = if self.changesets.len() == 0 {
            0
        } else {
            self.changesets[self.changesets.len() - 1].version
        };
        if recorded > max_known {
            Some(MigrationError::LedgerCorrupt { recorded, max_known })
        } else {
            None
        }
    }

    /// Give the ledger back, as the store now holds it.
    pub fn into_ledger(self) -> (l: Vec<u64>)
        ensures
            l@ == self.ledger(),
    {
        self.ledger
    }
}

/// Every outcome of the sequence is a success.
pub open spec fn all_success(outs: Seq<StatementOutcome>) -> bool {
    forall|i: int| 0 <= i < outs.len() ==> !((#[trigger] outs[i]) is Failure)
}

/// How many of `n` pending changesets run to completion, given the outcomes
/// the store reports one by one: the count of leading successes, capped at
/// `n`. The run stops at the first failure.
pub open spec fn success_count(n: nat, outs: Seq<StatementOutcome>) -> nat
    decreases n,
{
    if n == 0 {
        0
    } else if outs.len() == 0 || outs[0] is Failure {
        0
    } else {
        (1 + success_count((n - 1) as nat, outs.drop_first())) as nat
    }
}

/// The count of leading successes is `i` exactly when the first `i` outcomes
/// succeed and either everything pending got its turn or the next outcome is
/// a failure.
pub proof fn lemma_success_count_prefix(n: nat, outs: Seq<StatementOutcome>, i: nat)
    requires
        i <= n,
        i <= outs.len(),
        forall|j: int| 0 <= j < i ==> !((#[trigger] outs[j]) is Failure),
        i == n || (i < outs.len() && outs[i as int] is Failure),
    ensures
        success_count(n, outs) == i,
    decreases n,
{
    if n == 0 {
    } else if i == 0 {
    } else {
        let rest = outs.drop_first();
        assert(forall|j: int| 0 <= j < i - 1 ==> #[trigger] rest[j] == outs[j + 1]);
        if i < n {
            assert(rest[i - 1] == outs[i as int]);
        }
        lemma_success_count_prefix((n - 1) as nat, rest, (i - 1) as nat);
    }
}

/// The ledger a run leaves behind: unchanged for a corrupt store, else the
/// initial ledger extended, in order, by the versions of the pending
/// changesets that ran to completion before the first failure.
pub open spec fn apply_ledger(
    initial: Seq<u64>,
    cs: Seq<Changeset>,
    outs: Seq<StatementOutcome>,
) -> Seq<u64> {
    if ledger_max(initial) > known_max(cs) {
        initial
    } else {
        let pend = pending_of(cs, ledger_max(initial));
        initial + versions_of(pend.take(success_count(pend.len(), outs) as int))
    }
}

/// A run reports success exactly when the store is not corrupt and every
/// pending changeset's statements succeeded.
pub open spec fn apply_ok(
    initial: Seq<u64>,
    cs: Seq<Changeset>,
    outs: Seq<StatementOutcome>,
) -> bool {
    &&& ledger_max(initial) <= known_max(cs)
    &&& success_count(pending_of(cs, ledger_max(initial)).len(), outs) == pending_of(
        cs,
        ledger_max(initial),
    ).len()
}

/// What one migration run left behind: the ledger the store now holds, and
/// the verdict.
pub struct ApplyReport {
    pub ledger: Vec<u64>,
    pub outcome: Result<(), MigrationError>,
}

/// One whole migration run, with the statement execution abstracted into the
/// outcome the store reported for each pending changeset in turn (`outcomes`
/// must cover at least the pending changesets; entries beyond the first
/// failure are never consulted).
///
/// Brings the ledger from its initial state to [`apply_ledger`]: versions
/// strictly above the recorded maximum are applied in ascending order, each
/// exactly once, a changeset's version is recorded exactly when its
/// statements succeeded, and the run stops at the first failure, naming the
/// failed version. A store recording a version above every known changeset
/// is refused untouched.
pub fn apply(
    initial_ledger: Vec<u64>,
    changesets: Vec<Changeset>,
    outcomes: &Vec<StatementOutcome>,
) -> (r: ApplyReport)
    requires
        versions_ascending(changesets@),
        ledger_wf(initial_ledger@),
        outcomes@.len() >= pending_of(changesets@, ledger_max(initial_ledger@)).len(),
    ensures
        r.ledger@ == apply_ledger(initial_ledger@, changesets@, outcomes@),
        ledger_wf(r.ledger@),
        r.outcome is Ok <==> apply_ok(initial_ledger@, changesets@, outcomes@),
        (match r.outcome {
            Ok(_) => true,
            Err(e) => match e {
                MigrationError::LedgerCorrupt { recorded, max_known } => recorded == ledger_max(
                    initial_ledger@,
                ) && max_known == known_max(changesets@) && recorded > max_known,
                MigrationError::StatementFailed { version, cause } => ({
                    let pend = pending_of(changesets@, ledger_max(initial_ledger@));
                    let k = success_count(pend.len(), outcomes@) as int;
                    &&& ledger_max(initial_ledger@) <= known_max(changesets@)
                    &&& k < pend.len()
                    &&& version == pend[k].version
                    &&& outcomes@[k] matches StatementOutcome::Failure(c) && cause@ == c@
                }),
                MigrationError::ConnectionFailed => false,
            },
        }),
{
    let ghost initial = initial_ledger@;
    let ghost cs = changesets@;
    let ghost m0 = ledger_max(initial);
    let ghost pend = pending_of(cs, m0);
    let mut eng = Engine::new(initial_ledger, changesets);
    if let Some(err) = eng.corruption_error() {
        proof {
            eng.lemma_wf_facts();
        }
        return ApplyReport { ledger: eng.into_ledger(), outcome: Err(err) };
    }
    proof {
        lemma_pending_of(cs, m0);
    }
    let outcomes_len: usize = outcomes.len();
    let mut i: usize = 0;
    while !eng.is_complete()
        invariant
            eng.wf(),
            !eng.has_failed(),
            initial == initial_ledger@,
            cs == changesets@,
            m0 == ledger_max(initial),
            pend == pending_of(cs, m0),
            ledger_max(initial) <= known_max(cs),
            i <= pend.len(),
            outcomes_len == outcomes@.len(),
            i <= outcomes_len,
            outcomes@.len() >= pend.len(),
            eng.pending() =~= pend.skip(i as int),
            eng.ledger() =~= initial + versions_of(pend.take(i as int)),
            forall|j: int| 0 <= j < i ==> !((#[trigger] outcomes@[j]) is Failure),
        decreases pend.len() - i,
    {
        proof {
            assert(pend.skip(i as int).len() > 0);
            assert(eng.pending()[0] == pend[i as int]);
        }
        match &outcomes[i] {
            StatementOutcome::Success => {
                eng.record_applied();
                proof {
                    assert(eng.pending() =~= pend.skip(i + 1));
                    assert(versions_of(pend.take(i + 1)) =~= versions_of(
                        pend.take(i as int),
                    ).push(pend[i as int].version));
                    assert(eng.ledger() =~= initial + versions_of(pend.take(i + 1)));
                }
            },
            StatementOutcome::Failure(cause) => {
                let e = eng.record_failure(cause.clone());
                proof {
                    eng.lemma_wf_facts();
                    lemma_success_count_prefix(pend.len(), outcomes@, i as nat);
                }
                return ApplyReport { ledger: eng.into_ledger(), outcome: Err(e) };
            },
        }
        i = i + 1;
    }
    proof {
        eng.lemma_wf_facts();
        lemma_success_count_prefix(pend.len(), outcomes@, i as nat);
        assert(pend.take(i as int) =~= pend);
    }
    ApplyReport { ledger: eng.into_ledger(), outcome: Ok(()) }
}

/// The build-time changeset list: the five schema versions of the
/// application's store, in ascending order. Version 1 creates the `tasks`
/// and `messages` tables, 2 adds the tool-result columns, 3 creates the
/// `files` table, 4 the `settings` table, and 5 the `sessions` table
/// together with the session columns on `tasks`.
pub fn changesets() -> (cs: Vec<Changeset>)
    ensures
        cs@.len() == 5,
        versions_ascending(cs@),
        known_max(cs@) == 5,
        cs@[0].version == 1 && cs@[0].description@ == "create_tasks_and_messages_tables"@,
        cs@[1].version == 2 && cs@[1].description@ == "add_tool_result_fields"@,
        cs@[2].version == 3 && cs@[2].description@ == "create_files_table"@,
        cs@[3].version == 4 && cs@[3].description@ == "create_settings_table"@,
        cs@[4].version == 5 && cs@[4].description@ == "create_sessions_table_and_update_tasks"@,
        cs@[0].statements@.len() == 3,
        cs@[0].statements@[0]@ == "CREATE TABLE IF NOT EXISTS tasks (id TEXT PRIMARY KEY NOT NULL, prompt TEXT NOT NULL, status TEXT NOT NULL DEFAULT 'running', cost REAL, duration INTEGER, created_at TEXT NOT NULL DEFAULT (datetime('now')), updated_at TEXT NOT NULL DEFAULT (datetime('now')))"@,
        cs@[0].statements@[1]@ == "CREATE TABLE IF NOT EXISTS messages (id INTEGER PRIMARY KEY AUTOINCREMENT, task_id TEXT NOT NULL, type TEXT NOT NULL, content TEXT, tool_name TEXT, tool_input TEXT, subtype TEXT, error_message TEXT, created_at TEXT NOT NULL DEFAULT (datetime('now')), FOREIGN KEY (task_id) REFERENCES tasks(id) ON DELETE CASCADE)"@,
        cs@[0].statements@[2]@ == "CREATE INDEX IF NOT EXISTS idx_messages_task_id ON messages(task_id)"@,
        cs@[1].statements@.len() == 2,
        cs@[1].statements@[0]@ == "ALTER TABLE messages ADD COLUMN tool_output TEXT"@,
        cs@[1].statements@[1]@ == "ALTER TABLE messages ADD COLUMN tool_use_id TEXT"@,
        cs@[2].statements@.len() == 2,
        cs@[2].statements@[0]@ == "CREATE TABLE IF NOT EXISTS files (id INTEGER PRIMARY KEY AUTOINCREMENT, task_id TEXT NOT NULL, name TEXT NOT NULL, type TEXT NOT NULL, path TEXT NOT NULL, preview TEXT, thumbnail TEXT, is_favorite INTEGER NOT NULL DEFAULT 0, created_at TEXT NOT NULL DEFAULT (datetime('now')), FOREIGN KEY (task_id) REFERENCES tasks(id) ON DELETE CASCADE)"@,
        cs@[2].statements@[1]@ == "CREATE INDEX IF NOT EXISTS idx_files_task_id ON files(task_id)"@,
        cs@[3].statements@.len() == 1,
        cs@[3].statements@[0]@ == "CREATE TABLE IF NOT EXISTS settings (key TEXT PRIMARY KEY NOT NULL, value TEXT NOT NULL, updated_at TEXT NOT NULL DEFAULT (datetime('now')))"@,
        cs@[4].statements@.len() == 4,
        cs@[4].statements@[0]@ == "CREATE TABLE IF NOT EXISTS sessions (id TEXT PRIMARY KEY NOT NULL, prompt TEXT NOT NULL, task_count INTEGER NOT NULL DEFAULT 0, created_at TEXT NOT NULL DEFAULT (datetime('now')), updated_at TEXT NOT NULL DEFAULT (datetime('now')))"@,
        cs@[4].statements@[1]@ == "ALTER TABLE tasks ADD COLUMN session_id TEXT"@,
        cs@[4].statements@[2]@ == "ALTER TABLE tasks ADD COLUMN task_index INTEGER DEFAULT 1"@,
        cs@[4].statements@[3]@ == "CREATE INDEX IF NOT EXISTS idx_tasks_session_id ON tasks(session_id)"@,
{
    let mut s1: Vec<String> = Vec::new();
    s1.push(String::from_str("CREATE TABLE IF NOT EXISTS tasks (id TEXT PRIMARY KEY NOT NULL, prompt TEXT NOT NULL, status TEXT NOT NULL DEFAULT 'running', cost REAL, duration INTEGER, created_at TEXT NOT NULL DEFAULT (datetime('now')), updated_at TEXT NOT NULL DEFAULT (datetime('now')))"));
    s1.push(String::from_str("CREATE TABLE IF NOT EXISTS messages (id INTEGER PRIMARY KEY AUTOINCREMENT, task_id TEXT NOT NULL, type TEXT NOT NULL, content TEXT, tool_name TEXT, tool_input TEXT, subtype TEXT, error_message TEXT, created_at TEXT NOT NULL DEFAULT (datetime('now')), FOREIGN KEY (task_id) REFERENCES tasks(id) ON DELETE CASCADE)"));
    s1.push(String::from_str("CREATE INDEX IF NOT EXISTS idx_messages_task_id ON messages(task_id)"));
    let mut s2: Vec<String> = Vec::new();
    s2.push(String::from_str("ALTER TABLE messages ADD COLUMN tool_output TEXT"));
    s2.push(String::from_str("ALTER TABLE messages ADD COLUMN tool_use_id TEXT"));
    let mut s3: Vec<String> = Vec::new();
    s3.push(String::from_str("CREATE TABLE IF NOT EXISTS files (id INTEGER PRIMARY KEY AUTOINCREMENT, task_id TEXT NOT NULL, name TEXT NOT NULL, type TEXT NOT NULL, path TEXT NOT NULL, preview TEXT, thumbnail TEXT, is_favorite INTEGER NOT NULL DEFAULT 0, created_at TEXT NOT NULL DEFAULT (datetime('now')), FOREIGN KEY (task_id) REFERENCES tasks(id) ON DELETE CASCADE)"));
    s3.push(String::from_str("CREATE INDEX IF NOT EXISTS idx_files_task_id ON files(task_id)"));
    let mut s4: Vec<String> = Vec::new();
    s4.push(String::from_str("CREATE TABLE IF NOT EXISTS settings (key TEXT PRIMARY KEY NOT NULL, value TEXT NOT NULL, updated_at TEXT NOT NULL DEFAULT (datetime('now')))"));
    let mut s5: Vec<String> = Vec::new();
    s5.push(String::from_str("CREATE TABLE IF NOT EXISTS sessions (id TEXT PRIMARY KEY NOT NULL, prompt TEXT NOT NULL, task_count INTEGER NOT NULL DEFAULT 0, created_at TEXT NOT NULL DEFAULT (datetime('now')), updated_at TEXT NOT NULL DEFAULT (datetime('now')))"));
    s5.push(String::from_str("ALTER TABLE tasks ADD COLUMN session_id TEXT"));
    s5.push(String::from_str("ALTER TABLE tasks ADD COLUMN task_index INTEGER DEFAULT 1"));
    s5.push(String::from_str("CREATE INDEX IF NOT EXISTS idx_tasks_session_id ON tasks(session_id)"));
    let mut cs: Vec<Changeset> = Vec::new();
    cs.push(
        Changeset {
            version: 1,
            description: String::from_str("create_tasks_and_messages_tables"),
            statements: s1,
        },
    );
    cs.push(
        Changeset {
            version: 2,
            description: String::from_str("add_tool_result_fields"),
            statements: s2,
        },
    );
    cs.push(
        Changeset { version: 3, description: String::from_str("create_files_table"), statements: s3 },
    );
    cs.push(
        Changeset {
            version: 4,
            description: String::from_str("create_settings_table"),
            statements: s4,
        },
    );
    cs.push(
        Changeset {
            version: 5,
            description: String::from_str("create_sessions_table_and_update_tasks"),
            statements: s5,
        },
    );
    cs
}

/// Every version of an ascending list is at most the last one.
proof fn lemma_ascending_last_max(cs: Seq<Changeset>)
    requires
        versions_ascending(cs),
    ensures
        forall|i: int| 0 <= i < cs.len() ==> (#[trigger] cs[i].version) <= known_max(cs),
{
    assert forall|i: int| 0 <= i < cs.len() implies (#[trigger] cs[i].version) <= known_max(
        cs,
    ) by {
        if i < cs.len() - 1 {
            assert(cs[i].version < cs[cs.len() - 1].version);
        }
    }
}

/// Every version of a well-formed ledger is at most its recorded maximum.
proof fn lemma_ledger_le_max(l: Seq<u64>)
    requires
        ledger_wf(l),
    ensures
        forall|i: int| 0 <= i < l.len() ==> (#[trigger] l[i]) <= ledger_max(l),
{
    assert forall|i: int| 0 <= i < l.len() implies (#[trigger] l[i]) <= ledger_max(l) by {
        if i < l.len() - 1 {
            assert(l[i] < l[l.len() - 1]);
        }
    }
}

/// When every outcome succeeds and there are enough of them, every pending
/// changeset runs.
pub proof fn lemma_all_success_count(n: nat, outs: Seq<StatementOutcome>)
    requires
        all_success(outs),
        n <= outs.len(),
    ensures
        success_count(n, outs) == n,
{
    lemma_success_count_prefix(n, outs, n);
}

/// Ordering and append-only: whatever the outcomes, a run leaves a strictly
/// ascending ledger, never touches the records that were already there, and
/// appends only versions above the previously recorded maximum — so
/// migrations apply in ascending version order, each at most once, and the
/// ledger's history is preserved.
pub proof fn lemma_apply_ordering(
    initial: Seq<u64>,
    cs: Seq<Changeset>,
    outs: Seq<StatementOutcome>,
)
    requires
        versions_ascending(cs),
        ledger_wf(initial),
    ensures
        ledger_wf(apply_ledger(initial, cs, outs)),
        apply_ledger(initial, cs, outs).take(initial.len() as int) == initial,
        forall|t: int|
            initial.len() <= t < apply_ledger(initial, cs, outs).len()
                ==> (#[trigger] apply_ledger(initial, cs, outs)[t]) > ledger_max(initial),
{
    let m = ledger_max(initial);
    let l1 = apply_ledger(initial, cs, outs);
    lemma_ledger_le_max(initial);
    if m > known_max(cs) {
        assert(l1.take(initial.len() as int) =~= initial);
    } else {
        let pend = pending_of(cs, m);
        lemma_pending_of(cs, m);
        let k = success_count(pend.len(), outs) as int;
        lemma_success_count_le(pend.len(), outs);
        let app = versions_of(pend.take(k));
        assert(forall|j: int| 0 <= j < k ==> app[j] == (#[trigger] pend[j].version));
        assert(ledger_wf(l1)) by {
            assert(forall|i: int, j: int|
                0 <= i < j < pend.len() ==> (#[trigger] pend[i].version) < (
                #[trigger] pend[j].version));
        }
        assert(l1.take(initial.len() as int) =~= initial);
    }
}

/// The success count never exceeds the pending count.
proof fn lemma_success_count_le(n: nat, outs: Seq<StatementOutcome>)
    ensures
        success_count(n, outs) <= n,
    decreases n,
{
    if n > 0 && outs.len() > 0 && !(outs[0] is Failure) {
        lemma_success_count_le((n - 1) as nat, outs.drop_first());
    }
}

/// Idempotence: one run with every statement succeeding brings the ledger to
/// its final state, and any further run over the same changeset list is a
/// no-op that again reports success — no duplicate records, no errors on the
/// second pass.
pub proof fn lemma_apply_idempotent(
    initial: Seq<u64>,
    cs: Seq<Changeset>,
    outs1: Seq<StatementOutcome>,
    outs2: Seq<StatementOutcome>,
)
    requires
        versions_ascending(cs),
        ledger_wf(initial),
        ledger_max(initial) <= known_max(cs),
        all_success(outs1),
        outs1.len() >= pending_of(cs, ledger_max(initial)).len(),
    ensures
        apply_ok(initial, cs, outs1),
        apply_ledger(apply_ledger(initial, cs, outs1), cs, outs2) == apply_ledger(
            initial,
            cs,
            outs1,
        ),
        apply_ok(apply_ledger(initial, cs, outs1), cs, outs2),
{
    let m = ledger_max(initial);
    let pend = pending_of(cs, m);
    lemma_pending_of(cs, m);
    lemma_all_success_count(pend.len(), outs1);
    assert(pend.take(pend.len() as int) =~= pend);
    let l1 = apply_ledger(initial, cs, outs1);
    assert(l1 == initial + versions_of(pend));
    lemma_ascending_last_max(cs);
    if pend.len() == 0 {
        assert(l1 =~= initial);
        assert(apply_ledger(l1, cs, outs2) == l1 + versions_of(
            pend.take(success_count(pend.len(), outs2) as int),
        ));
        lemma_success_count_le(pend.len(), outs2);
        assert(apply_ledger(l1, cs, outs2) =~= l1);
    } else {
        let k0 = choose|k: int|
            0 <= k <= cs.len() && pend == cs.subrange(k, cs.len() as int) && (forall|i: int|
                0 <= i < k ==> #[trigger] cs[i].version <= m);
        assert(pend[pend.len() - 1] == cs[cs.len() - 1]);
        assert(versions_of(pend)[pend.len() - 1] == known_max(cs));
        assert(ledger_max(l1) == known_max(cs));
        lemma_pending_of_empty(cs, known_max(cs));
        let pend2 = pending_of(cs, ledger_max(l1));
        assert(pend2.len() == 0);
        assert(apply_ledger(l1, cs, outs2) == l1 + versions_of(
            pend2.take(success_count(pend2.len(), outs2) as int),
        ));
        lemma_success_count_le(pend2.len(), outs2);
        assert(apply_ledger(l1, cs, outs2) =~= l1);
    }
}

/// Atomicity: when a changeset's statements fail, its version is not
/// recorded as applied, and a later run with the failure fixed picks up
/// exactly where the first left off and completes the ledger — no manual
/// cleanup, no duplicates.
pub proof fn lemma_apply_atomic(
    initial: Seq<u64>,
    cs: Seq<Changeset>,
    outs: Seq<StatementOutcome>,
    retry: Seq<StatementOutcome>,
)
    requires
        versions_ascending(cs),
        ledger_wf(initial),
        ledger_max(initial) <= known_max(cs),
        success_count(pending_of(cs, ledger_max(initial)).len(), outs) < pending_of(
            cs,
            ledger_max(initial),
        ).len(),
        all_success(retry),
        retry.len() >= pending_of(cs, ledger_max(initial)).len(),
    ensures
        ({
            let pend = pending_of(cs, ledger_max(initial));
            let k = success_count(pend.len(), outs) as int;
            let l1 = apply_ledger(initial, cs, outs);
            &&& !apply_ok(initial, cs, outs)
            &&& !l1.contains(pend[k].version)
            &&& apply_ok(l1, cs, retry)
            &&& apply_ledger(l1, cs, retry) == initial + versions_of(pend)
        }),
{
    let m = ledger_max(initial);
    let pend = pending_of(cs, m);
    let k = success_count(pend.len(), outs) as int;
    let l1 = apply_ledger(initial, cs, outs);
    lemma_pending_of(cs, m);
    lemma_ledger_le_max(initial);
    lemma_ascending_last_max(cs);
    assert(l1 == initial + versions_of(pend.take(k)));
    let k0 = choose|j: int|
        0 <= j <= cs.len() && pend == cs.subrange(j, cs.len() as int) && (forall|i: int|
            0 <= i < j ==> #[trigger] cs[i].version <= m);
    // The failed version is strictly above everything the run recorded.
    assert(forall|t: int|
        0 <= t < l1.len() ==> (#[trigger] l1[t]) < pend[k].version) by {
        assert(forall|t: int| 0 <= t < initial.len() ==> l1[t] == (#[trigger] initial[t]));
        assert(forall|t: int|
            0 <= t < k ==> l1[initial.len() + t] == (#[trigger] pend[t].version));
    }
    if l1.contains(pend[k].version) {
        let t = choose|t: int| 0 <= t < l1.len() && l1[t] == pend[k].version;
        assert(false);
    }
    // The recorded maximum after the failed run sits just below the failed
    // changeset: the retry's pending suffix starts exactly there.
    let m1 = ledger_max(l1);
    if k == 0 {
        assert(l1 =~= initial);
        assert(pending_of(cs, m1) == pend);
        assert(pend.skip(0) =~= pend);
    } else {
        assert(l1[l1.len() - 1] == pend[k - 1].version);
        assert(m1 == pend[k - 1].version);
        assert forall|j: int| 0 <= j < k0 + k implies (#[trigger] cs[j].version) <= m1 by {
            if j < k0 {
                assert(cs[j].version <= m);
                assert(pend[k - 1].version > m);
            } else {
                assert(cs[j] == pend[j - k0]);
                if j - k0 < k - 1 {
                    assert(pend[j - k0].version < pend[k - 1].version);
                }
            }
        }
        assert(cs[k0 + k].version == pend[k].version);
        assert(pend[k - 1].version < pend[k].version);
        lemma_pending_of_split(cs, m1, k0 + k);
        assert(pending_of(cs, m1) =~= pend.skip(k));
    }
    let pend2 = pending_of(cs, m1);
    assert(pend2 =~= pend.skip(k));
    lemma_all_success_count(pend2.len(), retry);
    assert(pend2.take(pend2.len() as int) =~= pend2);
    assert(m1 <= known_max(cs)) by {
        if k > 0 {
            assert(cs[k0 + k - 1].version <= known_max(cs));
        }
    }
    assert(apply_ledger(l1, cs, retry) == l1 + versions_of(pend2));
    assert(l1 + versions_of(pend2) =~= initial + versions_of(pend));
}

/// Concurrent first launch: the store's locking serialises racing runs, so
/// whichever run executes first brings a fresh store to the full ledger, and
/// the other observes that ledger and applies nothing — both end at the
/// final version, with no duplicate records.
pub proof fn lemma_concurrent_first_launch(
    cs: Seq<Changeset>,
    outs1: Seq<StatementOutcome>,
    outs2: Seq<StatementOutcome>,
)
    requires
        versions_ascending(cs),
        all_success(outs1),
        outs1.len() >= cs.len(),
    ensures
        ({
            let l1 = apply_ledger(Seq::<u64>::empty(), cs, outs1);
            &&& l1 == versions_of(cs)
            &&& forall|i: int, j: int| 0 <= i < j < l1.len() ==> l1[i] != l1[j]
            &&& apply_ok(Seq::<u64>::empty(), cs, outs1)
            &&& apply_ledger(l1, cs, outs2) == l1
            &&& apply_ok(l1, cs, outs2)
        }),
{
    let e = Seq::<u64>::empty();
    assert(ledger_wf(e));
    assert(ledger_max(e) == 0);
    lemma_pending_of_split(cs, 0, 0);
    assert(pending_of(cs, 0) =~= cs);
    lemma_apply_idempotent(e, cs, outs1, outs2);
    let l1 = apply_ledger(e, cs, outs1);
    lemma_all_success_count(cs.len(), outs1);
    assert(cs.take(cs.len() as int) =~= cs);
    assert(l1 =~= versions_of(cs));
    lemma_apply_ordering(e, cs, outs1);
    assert(forall|i: int, j: int| 0 <= i < j < l1.len() ==> l1[i] != l1[j]);
}

/// The store's locking serialises racing runs changeset by changeset, so a
/// losing racer may observe the winner's ledger after any number of the
/// winner's changesets. From every such observation point a run with
/// succeeding statements still reports success and brings the ledger to
/// exactly the full version list — never a duplicate record, never a skip.
pub proof fn lemma_race_completes_from_any_observed_ledger(
    cs: Seq<Changeset>,
    j: int,
    outs: Seq<StatementOutcome>,
)
    requires
        versions_ascending(cs),
        0 <= j <= cs.len(),
        all_success(outs),
        outs.len() >= cs.len(),
    ensures
        ({
            let observed = versions_of(cs.take(j));
            &&& ledger_wf(observed)
            &&& apply_ok(observed, cs, outs)
            &&& apply_ledger(observed, cs, outs) == versions_of(cs)
        }),
{
    let observed = versions_of(cs.take(j));
    assert(forall|i: int| 0 <= i < j ==> observed[i] == (#[trigger] cs[i].version));
    assert(ledger_wf(observed));
    let m = ledger_max(observed);
    lemma_ascending_last_max(cs);
    if j == 0 {
        assert(observed =~= Seq::<u64>::empty());
        assert(m == 0);
    } else {
        assert(m == cs[j - 1].version);
    }
    assert(m <= known_max(cs));
    assert forall|i: int| 0 <= i < j implies (#[trigger] cs[i].version) <= m by {
        if i < j - 1 {
            assert(cs[i].version < cs[j - 1].version);
        }
    }
    if j < cs.len() {
        assert(cs[j].version > m) by {
            if j > 0 {
                assert(cs[j - 1].version < cs[j].version);
            }
        }
    }
    lemma_pending_of_split(cs, m, j);
    let pend = pending_of(cs, m);
    assert(pend =~= cs.skip(j));
    lemma_all_success_count(pend.len(), outs);
    assert(pend.take(pend.len() as int) =~= pend);
    assert(apply_ledger(observed, cs, outs) == observed + versions_of(pend));
    assert(observed + versions_of(pend) =~= versions_of(cs));
}

} // verus!
