//! The task list behind the interactive task manager: adding, clearing and
//! updating tasks by identifier.  Prompting and persistence live with the
//! caller; creation time is handed in as epoch seconds.

use vstd::prelude::*;

verus! {

/// How urgent a task is.
#[derive(Clone, Copy, Debug, PartialEq, Eq, Structural)]
pub enum Priority {
    Low,
    Medium,
    High,
}

/// Mathematical model of one task.
pub ghost struct TaskModel {
    pub id: u32,
    pub description: Seq<char>,
    pub completed: bool,
    pub priority: Priority,
    pub created_at: i64,
    pub tags: Seq<Seq<char>>,
}

/// One task of the list.
pub struct Task {
    pub id: u32,
    pub description: String,
    pub completed: bool,
    pub priority: Priority,
    pub created_at: i64,
    pub tags: Vec<String>,
}

impl View for Task {
    type V = TaskModel;

    open spec fn view(&self) -> TaskModel {
        TaskModel {
            id: self.id,
            description: self.description@,
            completed: self.completed,
            priority: self.priority,
            created_at: self.created_at,
            tags: self.tags@.map_values(|t: String| t@),
        }
    }
}

/// The tasks whose identifier is not `id`.
pub open spec fn tasks_without(ts: Seq<TaskModel>, id: u32) -> Seq<TaskModel> {
    ts.filter(|t: TaskModel| t.id != id)
}

/// The index of the first task carrying `id`, or the count.
pub open spec fn task_index(ts: Seq<TaskModel>, id: u32) -> int
    decreases ts.len(),
{
    if ts.len() == 0 {
        0
    } else if ts[0].id == id {
        0
    } else {
        1 + task_index(ts.drop_first(), id)
    }
}

/// The greatest identifier in use, or zero.
pub open spec fn max_task_id(ts: Seq<TaskModel>) -> u32
    decreases ts.len(),
{
    if ts.len() == 0 {
        0u32
    } else {
        let rest = max_task_id(ts.drop_first());
        if ts[0].id > rest {
            ts[0].id
        } else {
            rest
        }
    }
}

/// Removes every task carrying `id`, keeping the order of the rest.
pub fn clear_task(tasks: Vec<Task>, id: u32) -> (r: Vec<Task>)
    ensures
        r@.map_values(|t: Task| t@) == tasks_without(tasks@.map_values(|t: Task| t@), id),
{
    let ghost orig = tasks@.map_values(|t: Task| t@);
    let mut rest = tasks;
    let mut kept: Vec<Task> = Vec::new();
    let n = rest.len();
    let mut i: usize = 0;
    while i < n
        invariant
            i <= n,
            n == orig.len(),
            rest@.map_values(|t: Task| t@) =~= orig.skip(i as int),
            rest@.len() == n - i,
            kept@.map_values(|t: Task| t@) == tasks_without(orig.take(i as int), id),
        decreases n - i,
    {
        let ghost prefix = orig.take(i as int);
        let ghost rp = rest@;
        let task = rest.remove(0);
        proof {
            reveal_with_fuel(Seq::<_>::filter, 2);
            assert(rp.map_values(|t: Task| t@)[0] == rp[0]@);
            assert(task@ == orig[i as int]);
            assert(rest@ == rp.remove(0));
            assert(forall|q: int| 0 <= q < rest@.len() ==> #[trigger] rest@[q] == rp[q + 1]);
            assert(forall|q: int|
                0 <= q < rp.len() ==> rp.map_values(|t: Task| t@)[q] == (#[trigger] rp[q])@);
            assert(forall|q: int|
                0 <= q < rest@.len() ==> rest@.map_values(|t: Task| t@)[q] == (
                #[trigger] rest@[q])@);
            assert(rest@.map_values(|t: Task| t@) =~= orig.skip(i + 1));
            assert(orig.take(i + 1) =~= prefix.push(orig[i as int]));
            assert(prefix.push(orig[i as int]).drop_last() =~= prefix);
        }
        if task.id != id {
            let ghost kept_before = kept@.map_values(|t: Task| t@);
            kept.push(task);
            proof {
                assert(kept@.map_values(|t: Task| t@) =~= kept_before.push(orig[i as int]));
            }
        }
        i = i + 1;
    }
    proof {
        assert(orig.take(n as int) =~= orig);
    }
    kept
}

/// The identifier a newly added task receives: one above the greatest in
/// use.
pub fn next_task_id(tasks: &Vec<Task>) -> (r: u32)
    requires
        max_task_id(tasks@.map_values(|t: Task| t@)) < u32::MAX,
    ensures
        r == max_task_id(tasks@.map_values(|t: Task| t@)) + 1,
{
    let ghost ts = tasks@.map_values(|t: Task| t@);
    let mut max_id: u32 = 0;
    let n = tasks.len();
    proof {
        assert(ts.skip(0) =~= ts);
    }
    let mut j = n;
    while j > 0
        invariant
            j <= n,
            n == ts.len(),
            ts == tasks@.map_values(|t: Task| t@),
            max_id == max_task_id(ts.skip(j as int)),
        decreases j,
    {
        j = j - 1;
        proof {
            assert(ts.skip(j as int)[0] == ts[j as int]);
            assert(ts.skip(j as int).drop_first() =~= ts.skip(j + 1));
        }
        if tasks[j].id > max_id {
            max_id = tasks[j].id;
        }
    }
    proof {
        assert(ts.skip(0) =~= ts);
    }
    max_id + 1
}

/// Appends a new task under the next free identifier.
pub fn add_task(
    tasks: Vec<Task>,
    description: String,
    priority: Priority,
    created_at: i64,
) -> (r: Vec<Task>)
    requires
        max_task_id(tasks@.map_values(|t: Task| t@)) < u32::MAX,
    ensures
        r@.map_values(|t: Task| t@) == tasks@.map_values(|t: Task| t@).push(
            TaskModel {
                id: (max_task_id(tasks@.map_values(|t: Task| t@)) + 1) as u32,
                description: description@,
                completed: false,
                priority,
                created_at,
                tags: Seq::empty(),
            },
        ),
{
    let ghost orig = tasks@.map_values(|t: Task| t@);
    let id = next_task_id(&tasks);
    let mut out = tasks;
    let task = Task { id, description, completed: false, priority, created_at, tags: Vec::new() };
    let ghost tm = task@;
    out.push(task);
    proof {
        assert(tm.tags =~= Seq::<Seq<char>>::empty());
        assert(out@.map_values(|t: Task| t@) =~= orig.push(tm));
    }
    out
}

/// Flips the completion mark of the first task carrying `id`, reporting
/// whether one was found.
pub fn toggle_completed(tasks: &mut Vec<Task>, id: u32) -> (r: bool)
    ensures
        ({
            let ts = old(tasks)@.map_values(|t: Task| t@);
            let i = task_index(ts, id);
            if i < ts.len() {
                r == true && final (tasks)@.map_values(|t: Task| t@) == ts.update(
                    i,
                    TaskModel { completed: !ts[i].completed, ..ts[i] },
                )
            } else {
                r == false && final (tasks)@.map_values(|t: Task| t@) == ts
            }
        }),
{
    let ghost ts = tasks@.map_values(|t: Task| t@);
    let n = tasks.len();
    let mut i: usize = 0;
    while i < n
        invariant
            i <= n,
            n == ts.len(),
            ts == tasks@.map_values(|t: Task| t@),
            ts == old(tasks)@.map_values(|t: Task| t@),
            forall|j: int| 0 <= j < i ==> (#[trigger] ts[j]).id != id,
        decreases n - i,
    {
        if tasks[i].id == id {
            proof {
                lemma_task_index_at(ts, id, i as int);
            }
            let was = tasks[i].completed;
            let old_task = tasks.remove(i);
            let new_task = Task { completed: !was, ..old_task };
            tasks.insert(i, new_task);
            proof {
                assert(tasks@.map_values(|t: Task| t@) =~= ts.update(
                    i as int,
                    TaskModel { completed: !ts[i as int].completed, ..ts[i as int] },
                ));
            }
            return true;
        }
        i = i + 1;
    }
    proof {
        lemma_task_index_none(ts, id);
    }
    false
}

/// Replaces the description of the first task carrying `id`, reporting
/// whether one was found.
pub fn set_description(tasks: &mut Vec<Task>, id: u32, description: String) -> (r: bool)
    ensures
        ({
            let ts = old(tasks)@.map_values(|t: Task| t@);
            let i = task_index(ts, id);
            if i < ts.len() {
                r == true && final (tasks)@.map_values(|t: Task| t@) == ts.update(
                    i,
                    TaskModel { description: description@, ..ts[i] },
                )
            } else {
                r == false && final (tasks)@.map_values(|t: Task| t@) == ts
            }
        }),
{
    let ghost ts = tasks@.map_values(|t: Task| t@);
    let n = tasks.len();
    let mut i: usize = 0;
    while i < n
        invariant
            i <= n,
            n == ts.len(),
            ts == tasks@.map_values(|t: Task| t@),
            ts == old(tasks)@.map_values(|t: Task| t@),
            forall|j: int| 0 <= j < i ==> (#[trigger] ts[j]).id != id,
        decreases n - i,
    {
        if tasks[i].id == id {
            proof {
                lemma_task_index_at(ts, id, i as int);
            }
            let ghost d = description@;
            let old_task = tasks.remove(i);
            let new_task = Task { description, ..old_task };
            tasks.insert(i, new_task);
            proof {
                assert(tasks@.map_values(|t: Task| t@) =~= ts.update(
                    i as int,
                    TaskModel { description: d, ..ts[i as int] },
                ));
            }
            return true;
        }
        i = i + 1;
    }
    proof {
        lemma_task_index_none(ts, id);
    }
    false
}

/// Replaces the priority of the first task carrying `id`, reporting whether
/// one was found.
pub fn set_priority(tasks: &mut Vec<Task>, id: u32, priority: Priority) -> (r: bool)
    ensures
        ({
            let ts = old(tasks)@.map_values(|t: Task| t@);
            let i = task_index(ts, id);
            if i < ts.len() {
                r == true && final (tasks)@.map_values(|t: Task| t@) == ts.update(
                    i,
                    TaskModel { priority, ..ts[i] },
                )
            } else {
                r == false && final (tasks)@.map_values(|t: Task| t@) == ts
            }
        }),
{
    let ghost ts = tasks@.map_values(|t: Task| t@);
    let n = tasks.len();
    let mut i: usize = 0;
    while i < n
        invariant
            i <= n,
            n == ts.len(),
            ts == tasks@.map_values(|t: Task| t@),
            ts == old(tasks)@.map_values(|t: Task| t@),
            forall|j: int| 0 <= j < i ==> (#[trigger] ts[j]).id != id,
        decreases n - i,
    {
        if tasks[i].id == id {
            proof {
                lemma_task_index_at(ts, id, i as int);
            }
            let old_task = tasks.remove(i);
            let new_task = Task { priority, ..old_task };
            tasks.insert(i, new_task);
            proof {
                assert(tasks@.map_values(|t: Task| t@) =~= ts.update(
                    i as int,
                    TaskModel { priority, ..ts[i as int] },
                ));
            }
            return true;
        }
        i = i + 1;
    }
    proof {
        lemma_task_index_none(ts, id);
    }
    false
}

/// Replaces the tags of the first task carrying `id`, reporting whether one
/// was found.
pub fn set_tags(tasks: &mut Vec<Task>, id: u32, tags: Vec<String>) -> (r: bool)
    ensures
        ({
            let ts = old(tasks)@.map_values(|t: Task| t@);
            let i = task_index(ts, id);
            if i < ts.len() {
                r == true && final (tasks)@.map_values(|t: Task| t@) == ts.update(
                    i,
                    TaskModel { tags: tags@.map_values(|t: String| t@), ..ts[i] },
                )
            } else {
                r == false && final (tasks)@.map_values(|t: Task| t@) == ts
            }
        }),
{
    let ghost ts = tasks@.map_values(|t: Task| t@);
    let n = tasks.len();
    let mut i: usize = 0;
    while i < n
        invariant
            i <= n,
            n == ts.len(),
            ts == tasks@.map_values(|t: Task| t@),
            ts == old(tasks)@.map_values(|t: Task| t@),
            forall|j: int| 0 <= j < i ==> (#[trigger] ts[j]).id != id,
        decreases n - i,
    {
        if tasks[i].id == id {
            proof {
                lemma_task_index_at(ts, id, i as int);
            }
            let ghost tg = tags@.map_values(|t: String| t@);
            let old_task = tasks.remove(i);
            let new_task = Task { tags, ..old_task };
            tasks.insert(i, new_task);
            proof {
                assert(tasks@.map_values(|t: Task| t@) =~= ts.update(
                    i as int,
                    TaskModel { tags: tg, ..ts[i as int] },
                ));
            }
            return true;
        }
        i = i + 1;
    }
    proof {
        lemma_task_index_none(ts, id);
    }
    false
}

proof fn lemma_task_index_at(ts: Seq<TaskModel>, id: u32, i: int)
    requires
        0 <= i < ts.len(),
        ts[i].id == id,
        forall|j: int| 0 <= j < i ==> (#[trigger] ts[j]).id != id,
    ensures
        task_index(ts, id) == i,
    decreases i,
{
    if i == 0 {
    } else {
        lemma_task_index_at(ts.drop_first(), id, i - 1);
    }
}

proof fn lemma_task_index_none(ts: Seq<TaskModel>, id: u32)
    requires
        forall|j: int| 0 <= j < ts.len() ==> (#[trigger] ts[j]).id != id,
    ensures
        task_index(ts, id) == ts.len(),
    decreases ts.len(),
{
    if ts.len() > 0 {
        lemma_task_index_none(ts.drop_first(), id);
    }
}

} // verus!
