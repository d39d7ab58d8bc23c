//! The task store behind the command-line task manager: tasks with rising
//! identifiers, completed, deleted or reprioritized by identifier.

use vstd::prelude::*;

use crate::strutil::{dec_of, u32_to_string};

verus! {

/// How urgent a stored task is.
#[derive(Clone, Copy, Debug, PartialEq, Eq, Structural)]
pub enum PriorityLevel {
    High,
    Medium,
    Low,
}

/// Mathematical model of one stored task.
pub ghost struct StoredTaskModel {
    pub id: u32,
    pub description: Seq<char>,
    pub completed: bool,
    pub priority: PriorityLevel,
    pub created_at: Option<u64>,
}

/// One stored task; creation time is epoch milliseconds when known.
pub struct StoredTask {
    pub id: u32,
    pub description: String,
    pub completed: bool,
    pub priority: PriorityLevel,
    pub created_at: Option<u64>,
}

impl View for StoredTask {
    type V = StoredTaskModel;

    open spec fn view(&self) -> StoredTaskModel {
        StoredTaskModel {
            id: self.id,
            description: self.description@,
            completed: self.completed,
            priority: self.priority,
            created_at: self.created_at,
        }
    }
}

/// The index of the first task carrying `id`, or the count.
pub open spec fn stored_index(ts: Seq<StoredTaskModel>, id: u32) -> int
    decreases ts.len(),
{
    if ts.len() == 0 {
        0
    } else if ts[0].id == id {
        0
    } else {
        1 + stored_index(ts.drop_first(), id)
    }
}

/// The tasks whose identifier is not `id`.
pub open spec fn stored_without(ts: Seq<StoredTaskModel>, id: u32) -> Seq<StoredTaskModel> {
    ts.filter(|t: StoredTaskModel| t.id != id)
}

/// The "not found" message for an identifier.
pub open spec fn not_found_msg(id: u32) -> Seq<char> {
    "ID "@ + dec_of(id as nat) + " introuvable"@
}

/// The task list and the identifier the next task will receive.
pub struct TaskStore {
    pub tasks: Vec<StoredTask>,
    pub next_id: u32,
}

impl TaskStore {
    /// The stored tasks.
    pub open spec fn model(&self) -> Seq<StoredTaskModel> {
        self.tasks@.map_values(|t: StoredTask| t@)
    }

    /// An empty store; the first task gets identifier one.
    pub fn new() -> (r: Self)
        ensures
            r.model() == Seq::<StoredTaskModel>::empty(),
            r.next_id == 1,
    {
        let r = TaskStore { tasks: Vec::new(), next_id: 1 };
        proof {
            assert(r.model() =~= Seq::<StoredTaskModel>::empty());
        }
        r
    }

    /// Appends a new, uncompleted task under the next identifier.
    pub fn add_task(&mut self, description: String, priority: PriorityLevel, created_at: Option<u64>)
        requires
            old(self).next_id < u32::MAX,
        ensures
            final (self).model() == old(self).model().push(
                StoredTaskModel {
                    id: old(self).next_id,
                    description: description@,
                    completed: false,
                    priority,
                    created_at,
                },
            ),
            final (self).next_id == old(self).next_id + 1,
    {
        let ghost before = self.model();
        let task = StoredTask {
            id: self.next_id,
            description,
            completed: false,
            priority,
            created_at,
        };
        let ghost tm = task@;
        self.tasks.push(task);
        self.next_id = self.next_id + 1;
        proof {
            assert(self.model() =~= before.push(tm));
        }
    }

    /// Marks the first task carrying `id` as completed; an unknown
    /// identifier is an error naming it.
    pub fn complete_task(&mut self, id: u32) -> (r: Result<(), String>)
        ensures
            ({
                let ts = old(self).model();
                let i = stored_index(ts, id);
                match r {
                    Ok(_) => i < ts.len() && final (self).model() == ts.update(
                        i,
                        StoredTaskModel { completed: true, ..ts[i] },
                    ),
                    Err(m) => i == ts.len() && final (self).model() == ts && m@ == not_found_msg(
                        id,
                    ),
                }
            }),
            final (self).next_id == old(self).next_id,
    {
        let ghost ts = self.model();
        let n = self.tasks.len();
        let mut i: usize = 0;
        while i < n
            invariant
                i <= n,
                n == ts.len(),
                ts == self.model(),
                ts == old(self).model(),
                self.next_id == old(self).next_id,
                forall|j: int| 0 <= j < i ==> (#[trigger] ts[j]).id != id,
            decreases n - i,
        {
            if self.tasks[i].id == id {
                proof {
                    lemma_stored_index_at(ts, id, i as int);
                }
                let old_task = self.tasks.remove(i);
                let new_task = StoredTask { completed: true, ..old_task };
                self.tasks.insert(i, new_task);
                proof {
                    assert(self.model() =~= ts.update(
                        i as int,
                        StoredTaskModel { completed: true, ..ts[i as int] },
                    ));
                }
                return Ok(());
            }
            i = i + 1;
        }
        proof {
            lemma_stored_index_none(ts, id);
        }
        Err(not_found_string(id))
    }

    /// Removes every task carrying `id`; an unknown identifier is an error
    /// naming it.
    pub fn delete_task(&mut self, id: u32) -> (r: Result<(), String>)
        ensures
            ({
                let ts = old(self).model();
                match r {
                    Ok(_) => stored_index(ts, id) < ts.len() && final (self).model()
                        == stored_without(ts, id),
                    Err(m) => stored_index(ts, id) == ts.len() && final (self).model() == ts && m@
                        == not_found_msg(id),
                }
            }),
            final (self).next_id == old(self).next_id,
    {
        let ghost orig = self.model();
        let mut rest: Vec<StoredTask> = Vec::new();
        core::mem::swap(&mut rest, &mut self.tasks);
        let mut kept: Vec<StoredTask> = Vec::new();
        let mut found = false;
        let n = rest.len();
        let mut i: usize = 0;
        while i < n
            invariant
                i <= n,
                n == orig.len(),
                rest@.map_values(|t: StoredTask| t@) =~= orig.skip(i as int),
                rest@.len() == n - i,
                kept@.map_values(|t: StoredTask| t@) == stored_without(orig.take(i as int), id),
                found == exists|j: int| 0 <= j < i && (#[trigger] orig[j]).id == id,
            decreases n - i,
        {
            let ghost prefix = orig.take(i as int);
            let ghost rp = rest@;
            let task = rest.remove(0);
            proof {
                reveal_with_fuel(Seq::<_>::filter, 2);
                assert(rp.map_values(|t: StoredTask| t@)[0] == rp[0]@);
                assert(task@ == orig[i as int]);
                assert(rest@ == rp.remove(0));
                assert(forall|q: int|
                    0 <= q < rest@.len() ==> #[trigger] rest@[q] == rp[q + 1]);
                assert(forall|q: int|
                    0 <= q < rp.len() ==> rp.map_values(|t: StoredTask| t@)[q] == (#[trigger] rp[q])@);
                assert(forall|q: int|
                    0 <= q < rest@.len() ==> rest@.map_values(|t: StoredTask| t@)[q] == (
                    #[trigger] rest@[q])@);
                assert(rest@.map_values(|t: StoredTask| t@) =~= orig.skip(i + 1));
                assert(orig.take(i + 1) =~= prefix.push(orig[i as int]));
                assert(prefix.push(orig[i as int]).drop_last() =~= prefix);
            }
            if task.id == id {
                found = true;
            } else {
                let ghost kept_before = kept@.map_values(|t: StoredTask| t@);
                kept.push(task);
                proof {
                    assert(kept@.map_values(|t: StoredTask| t@) =~= kept_before.push(
                        orig[i as int],
                    ));
                }
            }
            i = i + 1;
        }
        proof {
            assert(orig.take(n as int) =~= orig);
        }
        self.tasks = kept;
        if found {
            proof {
                lemma_stored_index_found(orig, id);
            }
            Ok(())
        } else {
            proof {
                lemma_stored_index_none(orig, id);
                lemma_stored_without_all(orig, id);
            }
            Err(not_found_string(id))
        }
    }

    /// Replaces the priority of the first task carrying `id`; an unknown
    /// identifier is an error naming it.
    pub fn update_priority(&mut self, id: u32, level: PriorityLevel) -> (r: Result<(), String>)
        ensures
            ({
                let ts = old(self).model();
                let i = stored_index(ts, id);
                match r {
                    Ok(_) => i < ts.len() && final (self).model() == ts.update(
                        i,
                        StoredTaskModel { priority: level, ..ts[i] },
                    ),
                    Err(m) => i == ts.len() && final (self).model() == ts && m@ == not_found_msg(
                        id,
                    ),
                }
            }),
            final (self).next_id == old(self).next_id,
    {
        let ghost ts = self.model();
        let n = self.tasks.len();
        let mut i: usize = 0;
        while i < n
            invariant
                i <= n,
                n == ts.len(),
                ts == self.model(),
                ts == old(self).model(),
                self.next_id == old(self).next_id,
                forall|j: int| 0 <= j < i ==> (#[trigger] ts[j]).id != id,
            decreases n - i,
        {
            if self.tasks[i].id == id {
                proof {
                    lemma_stored_index_at(ts, id, i as int);
                }
                let old_task = self.tasks.remove(i);
                let new_task = StoredTask { priority: level, ..old_task };
                self.tasks.insert(i, new_task);
                proof {
                    assert(self.model() =~= ts.update(
                        i as int,
                        StoredTaskModel { priority: level, ..ts[i as int] },
                    ));
                }
                return Ok(());
            }
            i = i + 1;
        }
        proof {
            lemma_stored_index_none(ts, id);
        }
        Err(not_found_string(id))
    }
}

/// The "not found" message for an identifier.
fn not_found_string(id: u32) -> (r: String)
    ensures
        r@ == not_found_msg(id),
{
    let mut m = String::from_str("ID ");
    let num = u32_to_string(id);
    m.append(num.as_str());
    m.append(" introuvable");
    m
}

proof fn lemma_stored_index_at(ts: Seq<StoredTaskModel>, id: u32, i: int)
    requires
        0 <= i < ts.len(),
        ts[i].id == id,
        forall|j: int| 0 <= j < i ==> (#[trigger] ts[j]).id != id,
    ensures
        stored_index(ts, id) == i,
    decreases i,
{
    if i == 0 {
    } else {
        lemma_stored_index_at(ts.drop_first(), id, i - 1);
    }
}

proof fn lemma_stored_index_none(ts: Seq<StoredTaskModel>, id: u32)
    requires
        forall|j: int| 0 <= j < ts.len() ==> (#[trigger] ts[j]).id != id,
    ensures
        stored_index(ts, id) == ts.len(),
    decreases ts.len(),
{
    if ts.len() > 0 {
        lemma_stored_index_none(ts.drop_first(), id);
    }
}

proof fn lemma_stored_without_all(ts: Seq<StoredTaskModel>, id: u32)
    requires
        forall|j: int| 0 <= j < ts.len() ==> (#[trigger] ts[j]).id != id,
    ensures
        stored_without(ts, id) == ts,
    decreases ts.len(),
{
    reveal_with_fuel(Seq::<_>::filter, 2);
    if ts.len() > 0 {
        assert(ts[ts.len() - 1].id != id);
        lemma_stored_without_all(ts.drop_last(), id);
        assert(stored_without(ts, id) =~= ts);
    } else {
        assert(stored_without(ts, id) =~= ts);
    }
}

proof fn lemma_stored_index_found(ts: Seq<StoredTaskModel>, id: u32)
    requires
        exists|j: int| 0 <= j < ts.len() && (#[trigger] ts[j]).id == id,
    ensures
        stored_index(ts, id) < ts.len(),
    decreases ts.len(),
{
    if ts.len() > 0 && ts[0].id != id {
        let j = choose|j: int| 0 <= j < ts.len() && (#[trigger] ts[j]).id == id;
        assert(ts.drop_first()[j - 1].id == id);
        lemma_stored_index_found(ts.drop_first(), id);
    }
}

} // verus!
