//! What the guided mode computes: the session value that carries the
//! service, and the flattening of a nested task listing into the flat
//! row list a menu shows, sub-tasks indented under their parents. The
//! prompting itself is the caller's business.

use vstd::prelude::*;
use crate::config::TeamWorkConfig;
use crate::service::Task;
use crate::service::TeamWorkService;

verus! {

/// The guided session: the service the prompts drive.
#[derive(Debug)]
pub struct InteractiveService {
    pub service: TeamWorkService,
}

impl InteractiveService {
    pub fn new(config: &TeamWorkConfig) -> (s: InteractiveService)
        ensures
            s.service.client.company_id@ == config.company_id@,
            s.service.client.token@ == config.token@,
    {
        InteractiveService { service: TeamWorkService::new(config) }
    }
}

/// One row of a task menu: a task, and whether it is shown indented as a
/// sub-task of the row above.
#[derive(Debug)]
pub struct TaskItem {
    pub task: Task,
    pub is_sub: bool,
}

/// Structural equality of two tasks, to every depth: same identifier,
/// same name, and pairwise equivalent sub-tasks.
pub open spec fn task_eqv(a: Task, b: Task) -> bool
    decreases a,
{
    &&& a.id == b.id
    &&& a.name@ == b.name@
    &&& tasks_eqv(a.sub_tasks@, b.sub_tasks@)
}

/// Pairwise structural equality of two task sequences.
pub open spec fn tasks_eqv(a: Seq<Task>, b: Seq<Task>) -> bool
    decreases a,
{
    &&& a.len() == b.len()
    &&& (a.len() == 0 || (task_eqv(a.last(), b.last()) && tasks_eqv(a.drop_last(), b.drop_last())))
}

/// Pairwise structural equality follows from elementwise structural
/// equality.
proof fn lemma_tasks_eqv_pointwise(a: Seq<Task>, b: Seq<Task>)
    requires
        a.len() == b.len(),
        forall|k: int| 0 <= k < a.len() ==> task_eqv(#[trigger] a[k], b[k]),
    ensures
        tasks_eqv(a, b),
    decreases a.len(),
{
    if a.len() > 0 {
        assert forall|k: int| 0 <= k < a.drop_last().len() implies task_eqv(
            #[trigger] a.drop_last()[k],
            b.drop_last()[k],
        ) by {
            assert(a.drop_last()[k] == a[k]);
            assert(b.drop_last()[k] == b[k]);
        }
        lemma_tasks_eqv_pointwise(a.drop_last(), b.drop_last());
    }
}

impl Task {
    /// A structurally equal copy of the task and all its sub-tasks.
    pub fn duplicate(&self) -> (r: Task)
        ensures
            task_eqv(r, *self),
        decreases *self,
    {
        let mut subs: Vec<Task> = Vec::new();
        let n = self.sub_tasks.len();
        let mut i: usize = 0;
        while i < n
            invariant
                i <= n,
                n == self.sub_tasks@.len(),
                subs@.len() == i,
                forall|k: int| 0 <= k < i ==> task_eqv(#[trigger] subs@[k], self.sub_tasks@[k]),
            decreases n - i,
        {
            proof {
                assert(decreases_to!(*self => self.sub_tasks));
                assert(decreases_to!(self.sub_tasks => self.sub_tasks@[i as int]));
            }
            let sub = self.sub_tasks[i].duplicate();
            subs.push(sub);
            i = i + 1;
        }
        proof {
            lemma_tasks_eqv_pointwise(subs@, self.sub_tasks@);
        }
        Task { id: self.id, name: self.name.clone(), sub_tasks: subs }
    }
}

/// The indented rows the sub-tasks of one task contribute.
pub open spec fn sub_items_of(t: Task) -> Seq<TaskItem> {
    Seq::new(t.sub_tasks@.len(), |k: int| TaskItem { task: t.sub_tasks@[k], is_sub: true })
}

/// The rows one task contributes to the menu: the task itself, then each
/// of its sub-tasks as an indented row.
pub open spec fn flattened_one(t: Task) -> Seq<TaskItem> {
    seq![(TaskItem { task: t, is_sub: false })] + sub_items_of(t)
}

/// The rows a whole listing contributes, in listing order.
pub open spec fn flattened(tasks: Seq<Task>) -> Seq<TaskItem>
    decreases tasks.len(),
{
    if tasks.len() == 0 {
        Seq::empty()
    } else {
        flattened(tasks.drop_last()) + flattened_one(tasks.last())
    }
}

/// The same row: same indentation, structurally equal task.
pub open spec fn item_eqv(a: TaskItem, b: TaskItem) -> bool {
    a.is_sub == b.is_sub && task_eqv(a.task, b.task)
}

/// The same rows throughout.
pub open spec fn items_eqv(a: Seq<TaskItem>, b: Seq<TaskItem>) -> bool {
    &&& a.len() == b.len()
    &&& forall|k: int| 0 <= k < a.len() ==> item_eqv(#[trigger] a[k], b[k])
}

/// Turns a nested task listing into the flat row list a menu shows:
/// every task followed by its sub-tasks, each sub-task marked as such
/// and each row carrying a structurally equal copy of its task.
pub fn flatten_tasks(task_list: Vec<Task>) -> (r: Vec<TaskItem>)
    ensures
        items_eqv(r@, flattened(task_list@)),
{
    let mut items: Vec<TaskItem> = Vec::new();
    let n = task_list.len();
    let mut i: usize = 0;
    while i < n
        invariant
            i <= n,
            n == task_list@.len(),
            items_eqv(items@, flattened(task_list@.take(i as int))),
        decreases n - i,
    {
        let t = &task_list[i];
        let ghost target = flattened(task_list@.take(i as int)) + seq![
            (TaskItem { task: *t, is_sub: false }),
        ];
        items.push(TaskItem { task: t.duplicate(), is_sub: false });
        proof {
            assert(items_eqv(items@, target));
        }
        let m = t.sub_tasks.len();
        let mut j: usize = 0;
        while j < m
            invariant
                j <= m,
                m == t.sub_tasks@.len(),
                t == &task_list@[i as int],
                i < n == task_list@.len(),
                target == flattened(task_list@.take(i as int)) + seq![
                    (TaskItem { task: *t, is_sub: false }),
                ],
                items_eqv(items@, target + sub_items_of(*t).take(j as int)),
            decreases m - j,
        {
            proof {
                assert(sub_items_of(*t).take(j + 1 as int) =~= sub_items_of(*t).take(j as int).push(
                    (TaskItem { task: t.sub_tasks@[j as int], is_sub: true }),
                ));
                assert((target + sub_items_of(*t).take(j + 1 as int)) =~= (target + sub_items_of(
                    *t,
                ).take(j as int)).push((TaskItem { task: t.sub_tasks@[j as int], is_sub: true })));
            }
            items.push(TaskItem { task: t.sub_tasks[j].duplicate(), is_sub: true });
            j = j + 1;
        }
        proof {
            assert(sub_items_of(*t).take(m as int) =~= sub_items_of(*t));
            assert(task_list@.take(i + 1 as int).drop_last() =~= task_list@.take(i as int));
            assert(target + sub_items_of(*t) =~= flattened(task_list@.take(i + 1 as int)));
        }
        i = i + 1;
    }
    proof {
        assert(task_list@.take(n as int) =~= task_list@);
    }
    items
}

} // verus!
