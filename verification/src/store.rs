//! The referential rules of the application's store.
//!
//! The store itself is an external collaborator: an embedded relational
//! database whose schema the migration changesets create. This module
//! models the rules that schema imposes on the rows the application keeps —
//! primary-key uniqueness, the autoincrement counters, and the
//! `ON DELETE CASCADE` foreign keys from `messages` and `files` to `tasks` —
//! over the key columns those rules read. Column payloads (prompts, file
//! paths, timestamps) play no part in the rules and stay with the real
//! store.

use vstd::prelude::*;
use vstd::seq_lib::group_filter_ensures;

verus! {

/// A row of a table referencing `tasks`: its own primary key and the
/// `task_id` foreign key.
#[derive(Clone, Copy, PartialEq, Eq, Structural)]
pub struct ChildRow {
    pub id: u64,
    pub task_id: u64,
}

/// A sequence of primary keys with no duplicates.
pub open spec fn keys_distinct(keys: Seq<u64>) -> bool {
    forall|i: int, j: int| 0 <= i < j < keys.len() ==> keys[i] != keys[j]
}

/// A sequence of child rows with pairwise distinct primary keys, all below
/// the table's autoincrement counter.
pub open spec fn rows_wf(rows: Seq<ChildRow>, next_id: u64) -> bool {
    &&& forall|i: int, j: int|
        0 <= i < j < rows.len() ==> (#[trigger] rows[i].id) != (#[trigger] rows[j].id)
    &&& forall|i: int| 0 <= i < rows.len() ==> (#[trigger] rows[i].id) < next_id
}

/// Every row of the table references an existing task.
pub open spec fn rows_reference(rows: Seq<ChildRow>, tasks: Seq<u64>) -> bool {
    forall|i: int| 0 <= i < rows.len() ==> tasks.contains(#[trigger] rows[i].task_id)
}

/// The store's rows, reduced to the keys its referential rules read: the
/// `tasks` primary keys, and the `messages` and `files` rows that reference
/// them, each table with its autoincrement counter.
pub struct Store {
    pub tasks: Vec<u64>,
    pub messages: Vec<ChildRow>,
    pub files: Vec<ChildRow>,
    pub next_message_id: u64,
    pub next_file_id: u64,
}

impl Store {
    /// The schema's invariant: unique primary keys, counters ahead of every
    /// assigned key, and no row referencing a task that does not exist.
    pub open spec fn wf(self) -> bool {
        &&& keys_distinct(self.tasks@)
        &&& rows_wf(self.messages@, self.next_message_id)
        &&& rows_wf(self.files@, self.next_file_id)
        &&& rows_reference(self.messages@, self.tasks@)
        &&& rows_reference(self.files@, self.tasks@)
    }

    /// A fresh store: all tables empty.
    pub fn new() -> (s: Store)
        ensures
            s.wf(),
            s.tasks@ =~= Seq::<u64>::empty(),
            s.messages@ =~= Seq::<ChildRow>::empty(),
            s.files@ =~= Seq::<ChildRow>::empty(),
    {
        Store {
            tasks: Vec::new(),
            messages: Vec::new(),
            files: Vec::new(),
            next_message_id: 0,
            next_file_id: 0,
        }
    }

    /// Insert a `tasks` row: succeeds exactly when the primary key is not
    /// taken; a duplicate key changes nothing.
    pub fn insert_task(&mut self, id: u64) -> (inserted: bool)
        requires
            old(self).wf(),
        ensures
            final(self).wf(),
            inserted == !old(self).tasks@.contains(id),
            inserted ==> final(self).tasks@ == old(self).tasks@.push(id),
            !inserted ==> *final(self) == *old(self),
            final(self).messages@ == old(self).messages@,
            final(self).files@ == old(self).files@,
    {
        let n: usize = self.tasks.len();
        let mut i: usize = 0;
        while i < n
            invariant
                old(self).wf(),
                *self == *old(self),
                n == self.tasks@.len(),
                i <= n,
                forall|j: int| 0 <= j < i ==> self.tasks@[j] != id,
            decreases n - i,
        {
            if self.tasks[i] == id {
                return false;
            }
            i = i + 1;
        }
        proof {
            assert(!old(self).tasks@.contains(id));
        }
        self.tasks.push(id);
        proof {
            assert forall|k: int|
                0 <= k < self.messages@.len() implies self.tasks@.contains(
                #[trigger] self.messages@[k].task_id,
            ) by {
                let t = old(self).messages@[k].task_id;
                assert(old(self).tasks@.contains(t));
                let a = choose|a: int| 0 <= a < old(self).tasks@.len() && old(self).tasks@[a] == t;
                assert(self.tasks@[a] == t);
            }
            assert forall|k: int|
                0 <= k < self.files@.len() implies self.tasks@.contains(
                #[trigger] self.files@[k].task_id,
            ) by {
                let t = old(self).files@[k].task_id;
                assert(old(self).tasks@.contains(t));
                let a = choose|a: int| 0 <= a < old(self).tasks@.len() && old(self).tasks@[a] == t;
                assert(self.tasks@[a] == t);
            }
        }
        true
    }

    /// Insert a `messages` row for the given task: the foreign key admits
    /// it exactly when the task exists, and the autoincrement counter
    /// assigns its primary key.
    pub fn add_message(&mut self, task_id: u64) -> (r: Option<u64>)
        requires
            old(self).wf(),
            old(self).next_message_id < u64::MAX,
        ensures
            final(self).wf(),
            match r {
                Some(id) => {
                    &&& old(self).tasks@.contains(task_id)
                    &&& id == old(self).next_message_id
                    &&& final(self).messages@ == old(self).messages@.push(
                        ChildRow { id: id, task_id: task_id },
                    )
                    &&& final(self).next_message_id == old(self).next_message_id + 1
                    &&& final(self).tasks@ == old(self).tasks@
                    &&& final(self).files@ == old(self).files@
                    &&& final(self).next_file_id == old(self).next_file_id
                },
                None => !old(self).tasks@.contains(task_id) && *final(self) == *old(self),
            },
    {
        if !self.has_task(task_id) {
            return None;
        }
        let id: u64 = self.next_message_id;
        self.messages.push(ChildRow { id, task_id });
        self.next_message_id = id + 1;
        Some(id)
    }

    /// Insert a `files` row for the given task, under the same foreign-key
    /// rule as `messages`.
    pub fn add_file(&mut self, task_id: u64) -> (r: Option<u64>)
        requires
            old(self).wf(),
            old(self).next_file_id < u64::MAX,
        ensures
            final(self).wf(),
            match r {
                Some(id) => {
                    &&& old(self).tasks@.contains(task_id)
                    &&& id == old(self).next_file_id
                    &&& final(self).files@ == old(self).files@.push(
                        ChildRow { id: id, task_id: task_id },
                    )
                    &&& final(self).next_file_id == old(self).next_file_id + 1
                    &&& final(self).tasks@ == old(self).tasks@
                    &&& final(self).messages@ == old(self).messages@
                    &&& final(self).next_message_id == old(self).next_message_id
                },
                None => !old(self).tasks@.contains(task_id) && *final(self) == *old(self),
            },
    {
        if !self.has_task(task_id) {
            return None;
        }
        let id: u64 = self.next_file_id;
        self.files.push(ChildRow { id, task_id });
        self.next_file_id = id + 1;
        Some(id)
    }

    /// Whether a `tasks` row with this primary key exists.
    pub fn has_task(&self, id: u64) -> (b: bool)
        ensures
            b == self.tasks@.contains(id),
    {
        let n: usize = self.tasks.len();
        let mut i: usize = 0;
        while i < n
            invariant
                n == self.tasks@.len(),
                i <= n,
                forall|j: int| 0 <= j < i ==> self.tasks@[j] != id,
            decreases n - i,
        {
            if self.tasks[i] == id {
                return true;
            }
            i = i + 1;
        }
        false
    }

    /// Delete a `tasks` row: the cascade removes exactly the `messages` and
    /// `files` rows referencing it, so no surviving row references the
    /// deleted task, and rows of other tasks survive in order, untouched.
    pub fn delete_task(&mut self, id: u64) -> (deleted: bool)
        requires
            old(self).wf(),
        ensures
            final(self).wf(),
            deleted == old(self).tasks@.contains(id),
            final(self).tasks@ == old(self).tasks@.filter(|t: u64| t != id),
            final(self).messages@ == old(self).messages@.filter(
                (|m: ChildRow| m.task_id != id),
            ),
            final(self).files@ == old(self).files@.filter((|f: ChildRow| f.task_id != id)),
            forall|i: int|
                0 <= i < final(self).messages@.len()
                    ==> (#[trigger] final(self).messages@[i]).task_id != id,
            forall|i: int|
                0 <= i < final(self).files@.len()
                    ==> (#[trigger] final(self).files@[i]).task_id != id,
            final(self).next_message_id == old(self).next_message_id,
            final(self).next_file_id == old(self).next_file_id,
    {
        broadcast use group_filter_ensures;

        let deleted = self.has_task(id);
        let mut kept_tasks: Vec<u64> = Vec::new();
        let n: usize = self.tasks.len();
        let mut i: usize = 0;
        while i < n
            invariant
                n == self.tasks@.len(),
                i <= n,
                kept_tasks@ == self.tasks@.take(i as int).filter(|t: u64| t != id),
            decreases n - i,
        {
            let t = self.tasks[i];
            proof {
                assert(self.tasks@.take(i + 1).drop_last() =~= self.tasks@.take(i as int));
                reveal(Seq::filter);
            }
            if t != id {
                kept_tasks.push(t);
            }
            i = i + 1;
        }
        proof {
            assert(self.tasks@.take(n as int) =~= self.tasks@);
        }

        let mut kept_messages: Vec<ChildRow> = Vec::new();
        let m: usize = self.messages.len();
        let mut i: usize = 0;
        while i < m
            invariant
                m == self.messages@.len(),
                i <= m,
                kept_messages@ == self.messages@.take(i as int).filter(
                    |r: ChildRow| r.task_id != id,
                ),
            decreases m - i,
        {
            let r = self.messages[i];
            proof {
                assert(self.messages@.take(i + 1).drop_last() =~= self.messages@.take(i as int));
                reveal(Seq::filter);
            }
            if r.task_id != id {
                kept_messages.push(r);
            }
            i = i + 1;
        }
        proof {
            assert(self.messages@.take(m as int) =~= self.messages@);
        }

        let mut kept_files: Vec<ChildRow> = Vec::new();
        let f: usize = self.files.len();
        let mut i: usize = 0;
        while i < f
            invariant
                f == self.files@.len(),
                i <= f,
                kept_files@ == self.files@.take(i as int).filter(|r: ChildRow| r.task_id != id),
            decreases f - i,
        {
            let r = self.files[i];
            proof {
                assert(self.files@.take(i + 1).drop_last() =~= self.files@.take(i as int));
                reveal(Seq::filter);
            }
            if r.task_id != id {
                kept_files.push(r);
            }
            i = i + 1;
        }
        proof {
            assert(self.files@.take(f as int) =~= self.files@);
        }

        self.tasks = kept_tasks;
        self.messages = kept_messages;
        self.files = kept_files;
        proof {
            lemma_filter_keeps_wf(old(self).tasks@, old(self).messages@, id, self.next_message_id);
            lemma_filter_keeps_wf(old(self).tasks@, old(self).files@, id, self.next_file_id);
            assert forall|i: int|
                0 <= i < self.messages@.len() implies (#[trigger] self.messages@[i]).task_id
                != id by {
                old(self).messages@.lemma_filter_pred(|r: ChildRow| r.task_id != id, i);
            }
            assert forall|i: int|
                0 <= i < self.files@.len() implies (#[trigger] self.files@[i]).task_id != id by {
                old(self).files@.lemma_filter_pred(|r: ChildRow| r.task_id != id, i);
            }
        }
        deleted
    }
}

/// Filtering a parent's key out of the parent table together with every
/// child row referencing it preserves the schema's invariant: surviving
/// keys stay distinct and surviving rows still reference surviving tasks.
proof fn lemma_filter_keeps_wf(tasks: Seq<u64>, rows: Seq<ChildRow>, id: u64, next_id: u64)
    requires
        keys_distinct(tasks),
        rows_wf(rows, next_id),
        rows_reference(rows, tasks),
    ensures
        keys_distinct(tasks.filter(|t: u64| t != id)),
        rows_wf(rows.filter((|r: ChildRow| r.task_id != id)), next_id),
        rows_reference(
            rows.filter((|r: ChildRow| r.task_id != id)),
            tasks.filter(|t: u64| t != id),
        ),
{
    broadcast use group_filter_ensures;

    let kept_tasks = tasks.filter(|t: u64| t != id);
    let kept_rows = rows.filter((|r: ChildRow| r.task_id != id));
    lemma_filter_is_subsequence(tasks, |t: u64| t != id);
    lemma_filter_is_subsequence(rows, (|r: ChildRow| r.task_id != id));
    assert forall|i: int, j: int| 0 <= i < j < kept_tasks.len() implies kept_tasks[i]
        != kept_tasks[j] by {
        let (a, b) = choose|a: int, b: int|
            0 <= a < b < tasks.len() && tasks[a] == kept_tasks[i] && tasks[b] == kept_tasks[j];
    }
    assert forall|i: int, j: int| 0 <= i < j < kept_rows.len() implies (#[trigger] kept_rows[i].id)
        != (#[trigger] kept_rows[j].id) by {
        let (a, b) = choose|a: int, b: int|
            0 <= a < b < rows.len() && rows[a] == kept_rows[i] && rows[b] == kept_rows[j];
    }
    assert forall|i: int| 0 <= i < kept_rows.len() implies (#[trigger] kept_rows[i].id)
        < next_id by {
        assert(rows.contains(kept_rows[i]));
        let a = choose|a: int| 0 <= a < rows.len() && rows[a] == kept_rows[i];
    }
    assert forall|i: int| 0 <= i < kept_rows.len() implies kept_tasks.contains(
        #[trigger] kept_rows[i].task_id,
    ) by {
        assert(rows.contains(kept_rows[i]));
        let a = choose|a: int| 0 <= a < rows.len() && rows[a] == kept_rows[i];
        assert(tasks.contains(rows[a].task_id));
        let b = choose|b: int| 0 <= b < tasks.len() && tasks[b] == rows[a].task_id;
        assert(kept_tasks.contains(tasks[b]));
    }
}

/// Every pair of positions of a filtered sequence comes, in order, from a
/// pair of positions of the original.
proof fn lemma_filter_is_subsequence<A>(s: Seq<A>, pred: spec_fn(A) -> bool)
    ensures
        forall|i: int, j: int|
            #![trigger s.filter(pred)[i], s.filter(pred)[j]]
            0 <= i < j < s.filter(pred).len() ==> exists|a: int, b: int|
                0 <= a < b < s.len() && s[a] == s.filter(pred)[i] && s[b] == s.filter(pred)[j],
        forall|i: int|
            0 <= i < s.filter(pred).len() ==> s.contains(#[trigger] s.filter(pred)[i]),
    decreases s.len(),
{
    broadcast use group_filter_ensures;

    reveal(Seq::filter);
    if s.len() == 0 {
    } else {
        let prefix = s.drop_last();
        lemma_filter_is_subsequence(prefix, pred);
        let out = s.filter(pred);
        let sub = prefix.filter(pred);
        assert forall|i: int| 0 <= i < out.len() implies s.contains(#[trigger] out[i]) by {
            if i < sub.len() {
                assert(sub[i] == out[i]);
                assert(prefix.contains(sub[i]));
                let a = choose|a: int| 0 <= a < prefix.len() && prefix[a] == sub[i];
                assert(s[a] == out[i]);
            } else {
                assert(out[i] == s[s.len() - 1]);
            }
        }
        assert forall|i: int, j: int|
            #![trigger out[i], out[j]]
            0 <= i < j < out.len() implies exists|a: int, b: int|
            0 <= a < b < s.len() && s[a] == out[i] && s[b] == out[j] by {
            if j < sub.len() {
                assert(sub[i] == out[i] && sub[j] == out[j]);
                let (a, b) = choose|a: int, b: int|
                    0 <= a < b < prefix.len() && prefix[a] == sub[i] && prefix[b] == sub[j];
                assert(s[a] == out[i] && s[b] == out[j]);
            } else {
                // the last output element is the sequence's last element
                assert(out[j] == s[s.len() - 1]);
                assert(sub[i] == out[i]);
                assert(prefix.contains(sub[i]));
                let a = choose|a: int| 0 <= a < prefix.len() && prefix[a] == sub[i];
                assert(0 <= a < s.len() - 1 && s[a] == out[i]);
            }
        }
    }
}

} // verus!
