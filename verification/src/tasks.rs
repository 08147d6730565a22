//! Task tracking: priorities, the Todo → InProgress → Done status flow, and
//! the store of all tasks with its permission rule for status changes.

use vstd::prelude::*;
use vstd::string::*;

use crate::text::{all_ascii, ascii_upper, text_eq, to_uppercase, unicode_upper};

verus! {

/// How urgent a task is.
#[derive(Clone, Copy, Debug, PartialEq, Eq, Structural)]
pub enum Priority {
    Low,
    Medium,
    High,
    Urgent,
}

impl Priority {
    /// The display name of a priority.
    pub open spec fn name(self) -> Seq<char> {
        match self {
            Priority::Low => "Low"@,
            Priority::Medium => "Medium"@,
            Priority::High => "High"@,
            Priority::Urgent => "Urgent"@,
        }
    }

    /// The priority that an upper-cased name denotes, if any.
    pub open spec fn parse_upper(u: Seq<char>) -> Option<Priority> {
        if u == "LOW"@ {
            Some(Priority::Low)
        } else if u == "MEDIUM"@ {
            Some(Priority::Medium)
        } else if u == "HIGH"@ {
            Some(Priority::High)
        } else if u == "URGENT"@ {
            Some(Priority::Urgent)
        } else {
            None
        }
    }

    /// The priority named by an already upper-cased string.
    pub fn from_upper(u: &str) -> (r: Option<Priority>)
        ensures
            r == Priority::parse_upper(u@),
    {
        if text_eq(u, "LOW") {
            Some(Priority::Low)
        } else if text_eq(u, "MEDIUM") {
            Some(Priority::Medium)
        } else if text_eq(u, "HIGH") {
            Some(Priority::High)
        } else if text_eq(u, "URGENT") {
            Some(Priority::Urgent)
        } else {
            None
        }
    }

    /// Parses a priority name, ignoring case.
    pub fn from_str(s: &str) -> (r: Option<Priority>)
        ensures
            r == Priority::parse_upper(unicode_upper(s@)),
            all_ascii(s@) ==> r == Priority::parse_upper(ascii_upper(s@)),
    {
        let up = to_uppercase(s);
        Priority::from_upper(up.as_str())
    }

    /// The display name of this priority.
    pub fn to_str(&self) -> (r: &'static str)
        ensures
            r@ == self.name(),
    {
        match self {
            Priority::Low => "Low",
            Priority::Medium => "Medium",
            Priority::High => "High",
            Priority::Urgent => "Urgent",
        }
    }

    /// The symbol shown beside this priority.
    pub open spec fn symbol(self) -> Seq<char> {
        match self {
            Priority::Low => "🟢"@,
            Priority::Medium => "🟡"@,
            Priority::High => "🔴"@,
            Priority::Urgent => "🚨"@,
        }
    }

    /// The symbol shown beside this priority.
    pub fn emoji(&self) -> (r: &'static str)
        ensures
            r@ == self.symbol(),
    {
        match self {
            Priority::Low => "🟢",
            Priority::Medium => "🟡",
            Priority::High => "🔴",
            Priority::Urgent => "🚨",
        }
    }
}

/// A priority's name, upper-cased, parses back to that priority.
pub proof fn lemma_priority_name_round_trip(p: Priority)
    ensures
        all_ascii(p.name()),
        Priority::parse_upper(ascii_upper(p.name())) == Some(p),
{
    reveal_strlit("Low");
    reveal_strlit("Medium");
    reveal_strlit("High");
    reveal_strlit("Urgent");
    reveal_strlit("LOW");
    reveal_strlit("MEDIUM");
    reveal_strlit("HIGH");
    reveal_strlit("URGENT");
    match p {
        Priority::Low => {
            assert(ascii_upper(p.name()) =~= "LOW"@);
            assert(Priority::parse_upper(ascii_upper(p.name())) == Some(p));
        },
        Priority::Medium => {
            assert(ascii_upper(p.name()) =~= "MEDIUM"@);
            assert(Priority::parse_upper(ascii_upper(p.name())) == Some(p));
        },
        Priority::High => {
            assert(ascii_upper(p.name()) =~= "HIGH"@);
            assert(Priority::parse_upper(ascii_upper(p.name())) == Some(p));
        },
        Priority::Urgent => {
            assert(ascii_upper(p.name()) =~= "URGENT"@);
            assert("URGENT"@[0] != "MEDIUM"@[0]);
            assert(Priority::parse_upper(ascii_upper(p.name())) == Some(p));
        },
    }
}

/// Where a task stands: Todo → InProgress → Done.
#[derive(Clone, Copy, Debug, PartialEq, Eq, Structural)]
pub enum TaskStatus {
    Todo,
    InProgress,
    Done,
}

impl TaskStatus {
    /// The display name of a status.
    pub open spec fn name(self) -> Seq<char> {
        match self {
            TaskStatus::Todo => "Todo"@,
            TaskStatus::InProgress => "InProgress"@,
            TaskStatus::Done => "Done"@,
        }
    }

    /// The status that an upper-cased name denotes, if any; both
    /// `INPROGRESS` and `IN_PROGRESS` denote InProgress.
    pub open spec fn parse_upper(u: Seq<char>) -> Option<TaskStatus> {
        if u == "TODO"@ {
            Some(TaskStatus::Todo)
        } else if u == "INPROGRESS"@ {
            Some(TaskStatus::InProgress)
        } else if u == "IN_PROGRESS"@ {
            Some(TaskStatus::InProgress)
        } else if u == "DONE"@ {
            Some(TaskStatus::Done)
        } else {
            None
        }
    }

    /// The status named by an already upper-cased string.
    pub fn from_upper(u: &str) -> (r: Option<TaskStatus>)
        ensures
            r == TaskStatus::parse_upper(u@),
    {
        if text_eq(u, "TODO") {
            Some(TaskStatus::Todo)
        } else if text_eq(u, "INPROGRESS") {
            Some(TaskStatus::InProgress)
        } else if text_eq(u, "IN_PROGRESS") {
            Some(TaskStatus::InProgress)
        } else if text_eq(u, "DONE") {
            Some(TaskStatus::Done)
        } else {
            None
        }
    }

    /// Parses a status name, ignoring case.
    pub fn from_str(s: &str) -> (r: Option<TaskStatus>)
        ensures
            r == TaskStatus::parse_upper(unicode_upper(s@)),
            all_ascii(s@) ==> r == TaskStatus::parse_upper(ascii_upper(s@)),
    {
        let up = to_uppercase(s);
        TaskStatus::from_upper(up.as_str())
    }

    /// The display name of this status.
    pub fn to_str(&self) -> (r: &'static str)
        ensures
            r@ == self.name(),
    {
        match self {
            TaskStatus::Todo => "Todo",
            TaskStatus::InProgress => "InProgress",
            TaskStatus::Done => "Done",
        }
    }

    /// The symbol shown beside this status.
    pub open spec fn symbol(self) -> Seq<char> {
        match self {
            TaskStatus::Todo => "📋"@,
            TaskStatus::InProgress => "⚙️"@,
            TaskStatus::Done => "✅"@,
        }
    }

    /// The symbol shown beside this status.
    pub fn emoji(&self) -> (r: &'static str)
        ensures
            r@ == self.symbol(),
    {
        match self {
            TaskStatus::Todo => "📋",
            TaskStatus::InProgress => "⚙️",
            TaskStatus::Done => "✅",
        }
    }
}

/// A status's name, upper-cased, parses back to that status.
pub proof fn lemma_status_name_round_trip(s: TaskStatus)
    ensures
        all_ascii(s.name()),
        TaskStatus::parse_upper(ascii_upper(s.name())) == Some(s),
{
    reveal_strlit("Todo");
    reveal_strlit("InProgress");
    reveal_strlit("Done");
    reveal_strlit("TODO");
    reveal_strlit("INPROGRESS");
    reveal_strlit("IN_PROGRESS");
    reveal_strlit("DONE");
    match s {
        TaskStatus::Todo => {
            assert(ascii_upper(s.name()) =~= "TODO"@);
        },
        TaskStatus::InProgress => {
            assert(ascii_upper(s.name()) =~= "INPROGRESS"@);
        },
        TaskStatus::Done => {
            assert(ascii_upper(s.name()) =~= "DONE"@);
            assert("DONE"@[0] != "TODO"@[0]);
        },
    }
}

/// One task record.
#[derive(Clone, Debug)]
pub struct Task {
    pub task_id: String,
    pub title: String,
    pub description: String,
    pub priority: Priority,
    pub status: TaskStatus,
    /// The employee id of the creator.
    pub created_by: String,
    /// The employee id of the assignee.
    pub assigned_to: String,
    /// The department that owns the task.
    pub department: String,
    pub created_at: u128,
    pub updated_at: u128,
}

/// The mathematical model of a task record.
pub struct TaskView {
    pub task_id: Seq<char>,
    pub title: Seq<char>,
    pub description: Seq<char>,
    pub priority: Priority,
    pub status: TaskStatus,
    pub created_by: Seq<char>,
    pub assigned_to: Seq<char>,
    pub department: Seq<char>,
    pub created_at: u128,
    pub updated_at: u128,
}

impl View for Task {
    type V = TaskView;

    open spec fn view(&self) -> TaskView {
        TaskView {
            task_id: self.task_id@,
            title: self.title@,
            description: self.description@,
            priority: self.priority,
            status: self.status,
            created_by: self.created_by@,
            assigned_to: self.assigned_to@,
            department: self.department@,
            created_at: self.created_at,
            updated_at: self.updated_at,
        }
    }
}

impl Task {
    /// A copy of this record.
    pub fn duplicate(&self) -> (r: Task)
        ensures
            r@ == self@,
    {
        Task {
            task_id: self.task_id.clone(),
            title: self.title.clone(),
            description: self.description.clone(),
            priority: self.priority,
            status: self.status,
            created_by: self.created_by.clone(),
            assigned_to: self.assigned_to.clone(),
            department: self.department.clone(),
            created_at: self.created_at,
            updated_at: self.updated_at,
        }
    }
}

/// The models of a sequence of task records.
pub open spec fn task_views(s: Seq<Task>) -> Seq<TaskView> {
    s.map_values(|t: Task| t@)
}

/// The models of an optional task record.
pub open spec fn opt_task_view(r: Option<Task>) -> Option<TaskView> {
    match r {
        Some(t) => Some(t@),
        None => None,
    }
}

/// The employee id with authority over every task.
pub open spec fn ceo_id() -> Seq<char> {
    "0000"@
}

/// `i` is the first index of a task with the given id.
pub open spec fn is_first_task(s: Seq<TaskView>, id: Seq<char>, i: int) -> bool {
    &&& 0 <= i < s.len()
    &&& s[i].task_id == id
    &&& forall|j: int| 0 <= j < i ==> #[trigger] s[j].task_id != id
}

/// The index of the first task with the given id, if any.
pub open spec fn task_index(s: Seq<TaskView>, id: Seq<char>) -> Option<int> {
    if exists|i: int| is_first_task(s, id, i) {
        Some(choose|i: int| is_first_task(s, id, i))
    } else {
        None
    }
}

/// The first task with a given id is the one that `task_index` names.
pub proof fn lemma_task_index_at(s: Seq<TaskView>, id: Seq<char>, i: int)
    requires
        is_first_task(s, id, i),
    ensures
        task_index(s, id) == Some(i),
{
    let c = choose|k: int| is_first_task(s, id, k);
    assert(is_first_task(s, id, c));
    if c < i {
        assert(s[c].task_id != id);
    } else if c > i {
        assert(s[i].task_id != id);
    }
}

/// With no task carrying the id, `task_index` names none.
pub proof fn lemma_task_index_none(s: Seq<TaskView>, id: Seq<char>)
    requires
        forall|j: int| 0 <= j < s.len() ==> #[trigger] s[j].task_id != id,
    ensures
        task_index(s, id) is None,
{
}

/// The first task with the given id, if any.
pub open spec fn find_task(s: Seq<TaskView>, id: Seq<char>) -> Option<TaskView> {
    match task_index(s, id) {
        Some(i) => Some(s[i]),
        None => None,
    }
}

/// Whether `emp_id` may change the status of task `t`: its assignee may, and so may the CEO.
pub open spec fn may_update(t: TaskView, emp_id: Seq<char>) -> bool {
    t.assigned_to == emp_id || emp_id == ceo_id()
}

/// The effect of a status change request on the task list.
pub open spec fn status_update(
    s: Seq<TaskView>,
    task_id: Seq<char>,
    new_status: TaskStatus,
    emp_id: Seq<char>,
    timestamp: u128,
) -> Seq<TaskView> {
    match task_index(s, task_id) {
        Some(i) => if may_update(s[i], emp_id) {
            s.update(i, TaskView { status: new_status, updated_at: timestamp, ..s[i] })
        } else {
            s
        },
        None => s,
    }
}

/// Whether a status change request is carried out.
pub open spec fn status_update_allowed(s: Seq<TaskView>, task_id: Seq<char>, emp_id: Seq<char>) -> bool {
    match task_index(s, task_id) {
        Some(i) => may_update(s[i], emp_id),
        None => false,
    }
}

/// The characters of an optional string.
pub open spec fn opt_text(s: Option<&str>) -> Option<Seq<char>> {
    match s {
        Some(x) => Some(x@),
        None => None,
    }
}

/// The task has the given status, priority and department, each condition
/// applying only when given.
pub open spec fn task_matches(
    t: TaskView,
    status: Option<TaskStatus>,
    priority: Option<Priority>,
    department: Option<Seq<char>>,
) -> bool {
    &&& (status matches Some(s) ==> t.status == s)
    &&& (priority matches Some(p) ==> t.priority == p)
    &&& (department matches Some(d) ==> t.department == d)
}

/// The two records differ at most in status and change time.
pub open spec fn same_but_status(a: TaskView, b: TaskView) -> bool {
    a == (TaskView { status: a.status, updated_at: a.updated_at, ..b })
}

/// A task added under a new id is the one found by that id.
pub proof fn lemma_added_task_found(s: Seq<TaskView>, t: TaskView)
    requires
        forall|j: int| 0 <= j < s.len() ==> #[trigger] s[j].task_id != t.task_id,
    ensures
        find_task(s.push(t), t.task_id) == Some(t),
{
    let n = s.push(t);
    assert forall|j: int| 0 <= j < s.len() implies #[trigger] n[j].task_id != t.task_id by {
        assert(n[j] == s[j]);
    }
    assert(is_first_task(n, t.task_id, s.len() as int));
    lemma_task_index_at(n, t.task_id, s.len() as int);
}

/// Who may change a task's status: the task's assignee and the CEO (id
/// `0000`) always may, whatever the task's current status, and the change
/// sets exactly the status and the change time of the first task with that
/// id; anyone else is refused and nothing changes.
pub proof fn lemma_who_may_update(
    s: Seq<TaskView>,
    task_id: Seq<char>,
    new_status: TaskStatus,
    emp_id: Seq<char>,
    timestamp: u128,
    i: int,
)
    requires
        0 <= i < s.len(),
        s[i].task_id == task_id,
        forall|j: int| 0 <= j < i ==> #[trigger] s[j].task_id != task_id,
    ensures
        (s[i].assigned_to == emp_id || emp_id == "0000"@) ==> {
            &&& status_update_allowed(s, task_id, emp_id)
            &&& status_update(s, task_id, new_status, emp_id, timestamp) == s.update(
                i,
                TaskView { status: new_status, updated_at: timestamp, ..s[i] },
            )
            &&& status_update(s, task_id, new_status, emp_id, timestamp)[i].status == new_status
            &&& status_update(s, task_id, new_status, emp_id, timestamp)[i].updated_at == timestamp
        },
        (s[i].assigned_to != emp_id && emp_id != "0000"@) ==> {
            &&& !status_update_allowed(s, task_id, emp_id)
            &&& status_update(s, task_id, new_status, emp_id, timestamp) == s
        },
{
    lemma_task_index_at(s, task_id, i);
}

/// A status change asked for a task id that no task carries is refused and
/// changes nothing.
pub proof fn lemma_unknown_task_not_updated(
    s: Seq<TaskView>,
    task_id: Seq<char>,
    new_status: TaskStatus,
    emp_id: Seq<char>,
    timestamp: u128,
)
    requires
        forall|j: int| 0 <= j < s.len() ==> #[trigger] s[j].task_id != task_id,
    ensures
        !status_update_allowed(s, task_id, emp_id),
        status_update(s, task_id, new_status, emp_id, timestamp) == s,
{
    assert(!exists|k: int| is_first_task(s, task_id, k));
}

/// A refused status change changes nothing.
pub proof fn lemma_refused_update_changes_nothing(
    s: Seq<TaskView>,
    task_id: Seq<char>,
    new_status: TaskStatus,
    emp_id: Seq<char>,
    timestamp: u128,
)
    requires
        !status_update_allowed(s, task_id, emp_id),
    ensures
        status_update(s, task_id, new_status, emp_id, timestamp) == s,
{
}

/// A status change keeps every task, changing at most the status and the
/// change time of one task: the first with the id.
pub proof fn lemma_update_keeps_tasks(
    s: Seq<TaskView>,
    task_id: Seq<char>,
    new_status: TaskStatus,
    emp_id: Seq<char>,
    timestamp: u128,
    k: int,
)
    requires
        0 <= k < s.len(),
    ensures
        status_update(s, task_id, new_status, emp_id, timestamp).len() == s.len(),
        same_but_status(status_update(s, task_id, new_status, emp_id, timestamp)[k], s[k]),
        task_index(s, task_id) != Some(k) ==> status_update(s, task_id, new_status, emp_id, timestamp)[k] == s[k],
{
}

/// The field by which tasks are selected.
enum TaskField {
    AssignedTo,
    CreatedBy,
    Department,
}

spec fn task_field(t: TaskView, f: TaskField) -> Seq<char> {
    match f {
        TaskField::AssignedTo => t.assigned_to,
        TaskField::CreatedBy => t.created_by,
        TaskField::Department => t.department,
    }
}

/// All tasks, in the order in which they were added.
pub struct TaskStore {
    tasks: Vec<Task>,
}

impl View for TaskStore {
    type V = Seq<TaskView>;

    closed spec fn view(&self) -> Seq<TaskView> {
        task_views(self.tasks@)
    }
}

impl TaskStore {
    /// A store holding the given tasks.
    pub fn new(existing: Vec<Task>) -> (r: TaskStore)
        ensures
            r@ == task_views(existing@),
    {
        TaskStore { tasks: existing }
    }

    /// Appends a task.
    pub fn add_task(&mut self, task: Task)
        ensures
            final(self)@ == old(self)@.push(task@),
    {
        let ghost before = self@;
        let ghost tv = task@;
        self.tasks.push(task);
        assert(self@ =~= before.push(tv));
    }

    /// Changes the status of the first task with the given id, when the
    /// requester is its assignee or the CEO, and stamps the change time.
    /// Returns whether the task was changed.
    pub fn update_status(
        &mut self,
        task_id: &str,
        new_status: TaskStatus,
        emp_id: &str,
        timestamp: u128,
    ) -> (r: bool)
        ensures
            r == status_update_allowed(old(self)@, task_id@, emp_id@),
            final(self)@ == status_update(old(self)@, task_id@, new_status, emp_id@, timestamp),
    {
        let mut i: usize = 0;
        while i < self.tasks.len()
            invariant
                i <= self.tasks.len(),
                self@ == old(self)@,
                forall|j: int| 0 <= j < i ==> #[trigger] self@[j].task_id != task_id@,
            decreases self.tasks.len() - i,
        {
            if text_eq(self.tasks[i].task_id.as_str(), task_id) {
                proof {
                    lemma_task_index_at(self@, task_id@, i as int);
                }
                if text_eq(self.tasks[i].assigned_to.as_str(), emp_id) || text_eq(emp_id, "0000") {
                    let ghost before = self@;
                    let mut t = self.tasks[i].duplicate();
                    t.status = new_status;
                    t.updated_at = timestamp;
                    self.tasks.set(i, t);
                    assert(self@ =~= before.update(
                        i as int,
                        TaskView { status: new_status, updated_at: timestamp, ..before[i as int] },
                    ));
                    return true;
                } else {
                    return false;
                }
            }
            i = i + 1;
        }
        proof {
            lemma_task_index_none(self@, task_id@);
        }
        false
    }

    fn select(&self, field: TaskField, value: &str) -> (r: Vec<Task>)
        ensures
            task_views(r@) == self@.filter(|t: TaskView| task_field(t, field) == value@),
    {
        let ghost pred = |t: TaskView| task_field(t, field) == value@;
        let mut r: Vec<Task> = Vec::new();
        let mut i: usize = 0;
        while i < self.tasks.len()
            invariant
                i <= self.tasks.len(),
                pred == (|t: TaskView| task_field(t, field) == value@),
                task_views(r@) == self@.take(i as int).filter(pred),
            decreases self.tasks.len() - i,
        {
            let t = &self.tasks[i];
            proof {
                assert(self@[i as int] == t@);
                assert(self@.take(i + 1) =~= self@.take(i as int).push(t@));
                self@.take(i as int).lemma_filter_push(t@, pred);
            }
            let keep = match field {
                TaskField::AssignedTo => text_eq(t.assigned_to.as_str(), value),
                TaskField::CreatedBy => text_eq(t.created_by.as_str(), value),
                TaskField::Department => text_eq(t.department.as_str(), value),
            };
            if keep {
                let ghost before = r@;
                r.push(t.duplicate());
                assert(task_views(r@) =~= task_views(before).push(t@));
            }
            i = i + 1;
        }
        assert(self@.take(i as int) =~= self@);
        r
    }

    /// The tasks assigned to the employee, in store order.
    pub fn get_tasks_for_employee(&self, emp_id: &str) -> (r: Vec<Task>)
        ensures
            task_views(r@) == self@.filter(|t: TaskView| t.assigned_to == emp_id@),
    {
        let r = self.select(TaskField::AssignedTo, emp_id);
        assert((|t: TaskView| task_field(t, TaskField::AssignedTo) == emp_id@) =~= (|t: TaskView|
            t.assigned_to == emp_id@));
        r
    }

    /// The tasks created by the employee, in store order.
    pub fn get_tasks_created_by(&self, emp_id: &str) -> (r: Vec<Task>)
        ensures
            task_views(r@) == self@.filter(|t: TaskView| t.created_by == emp_id@),
    {
        let r = self.select(TaskField::CreatedBy, emp_id);
        assert((|t: TaskView| task_field(t, TaskField::CreatedBy) == emp_id@) =~= (|t: TaskView|
            t.created_by == emp_id@));
        r
    }

    /// The tasks owned by the department, in store order.
    pub fn get_tasks_by_department(&self, department: &str) -> (r: Vec<Task>)
        ensures
            task_views(r@) == self@.filter(|t: TaskView| t.department == department@),
    {
        let r = self.select(TaskField::Department, department);
        assert((|t: TaskView| task_field(t, TaskField::Department) == department@) =~= (|t: TaskView|
            t.department == department@));
        r
    }

    /// The first task with the given id, if any.
    pub fn get_task(&self, task_id: &str) -> (r: Option<Task>)
        ensures
            opt_task_view(r) == find_task(self@, task_id@),
    {
        let mut i: usize = 0;
        while i < self.tasks.len()
            invariant
                i <= self.tasks.len(),
                forall|j: int| 0 <= j < i ==> #[trigger] self@[j].task_id != task_id@,
            decreases self.tasks.len() - i,
        {
            if text_eq(self.tasks[i].task_id.as_str(), task_id) {
                proof {
                    lemma_task_index_at(self@, task_id@, i as int);
                }
                return Some(self.tasks[i].duplicate());
            }
            i = i + 1;
        }
        proof {
            lemma_task_index_none(self@, task_id@);
        }
        None
    }

    /// The number of tasks with the given status, priority and department,
    /// each condition applying only when given.
    pub fn count_matching(
        &self,
        status: Option<TaskStatus>,
        priority: Option<Priority>,
        department: Option<&str>,
    ) -> (r: usize)
        ensures
            r == self@.filter(|t: TaskView| task_matches(t, status, priority, opt_text(department))).len(),
    {
        let ghost pred = |t: TaskView| task_matches(t, status, priority, opt_text(department));
        let mut count: usize = 0;
        let mut i: usize = 0;
        while i < self.tasks.len()
            invariant
                i <= self.tasks.len(),
                pred == (|t: TaskView| task_matches(t, status, priority, opt_text(department))),
                count == self@.take(i as int).filter(pred).len(),
                count <= i,
            decreases self.tasks.len() - i,
        {
            let t = &self.tasks[i];
            proof {
                assert(self@[i as int] == t@);
                assert(self@.take(i + 1) =~= self@.take(i as int).push(t@));
                self@.take(i as int).lemma_filter_push(t@, pred);
            }
            let status_ok = match status {
                Some(s) => t.status == s,
                None => true,
            };
            let priority_ok = match priority {
                Some(p) => t.priority == p,
                None => true,
            };
            let department_ok = match department {
                Some(d) => text_eq(t.department.as_str(), d),
                None => true,
            };
            if status_ok && priority_ok && department_ok {
                count = count + 1;
            }
            i = i + 1;
        }
        assert(self@.take(i as int) =~= self@);
        count
    }

    /// The number of tasks.
    pub fn len(&self) -> (r: usize)
        ensures
            r == self@.len(),
    {
        self.tasks.len()
    }

    /// Every task, in store order.
    pub fn get_all_tasks(&self) -> (r: Vec<Task>)
        ensures
            task_views(r@) == self@,
    {
        let mut r: Vec<Task> = Vec::new();
        let mut i: usize = 0;
        while i < self.tasks.len()
            invariant
                i <= self.tasks.len(),
                task_views(r@) == self@.take(i as int),
            decreases self.tasks.len() - i,
        {
            let ghost before = r@;
            let t = self.tasks[i].duplicate();
            assert(t@ == self@[i as int]);
            r.push(t);
            assert(task_views(r@) =~= task_views(before).push(t@));
            assert(self@.take(i + 1) =~= self@.take(i as int).push(t@));
            i = i + 1;
        }
        assert(self@.take(i as int) =~= self@);
        r
    }
}

} // verus!
