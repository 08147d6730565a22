//! What the service shows: employee cards, department members, conversation
//! and notification lists, and the answers' record shapes.

use vstd::prelude::*;
use vstd::string::*;

use crate::chat::{Message, MessageView, between, message_time, message_views, unread_from};
use crate::employees::{Employee, EmployeeView, employee_views, lookup, roster_by_id};
use crate::notifications::{
    Notification, NotificationView, lemma_unread_count_matches_list, notification_time, notification_views,
};
use crate::order::{lemma_filter_len_mono, lemma_filter_none, stable_sorted};
use crate::service::AppState;
use crate::tasks::{Priority, Task, TaskStatus, TaskView, task_matches, task_views};
use crate::employees::Department;
use crate::events::{line_has_kind, line_of_kind, lines_of_kind};
use crate::text::text_eq;
use crate::chat::string_views;

verus! {

/// The list of endpoints that the home page shows.
pub fn index() -> (r: &'static str)
    ensures
        r@ == INDEX_TEXT@,
{
    INDEX_TEXT
}

/// The text of the home page.
pub const INDEX_TEXT: &'static str = "WorkBindr Enterprise API 🚀

Endpoints:
    GET  /                          - This page
    GET  /employee/<emp_id>         - Get employee info
    POST /query                     - Ask AI (dept filtered)
    POST /add_document              - Upload document
    POST /delete_document           - Delete document
    GET  /history                   - Full MORK log
    POST /tasks/create              - Create a task
    POST /tasks/update              - Update task status
    GET  /tasks/mine/<emp_id>       - My assigned tasks
    GET  /tasks/created/<emp_id>    - Tasks I created
    GET  /tasks/department/<dept>   - All dept tasks
    GET  /tasks/all                 - All tasks (CEO only)";

/// An employee's public card.
pub struct EmployeeInfo {
    pub emp_id: String,
    pub name: String,
    pub department: String,
    pub role: String,
}

/// The card shown for an employee record.
pub open spec fn card_of(e: EmployeeView) -> (Seq<char>, Seq<char>, Seq<char>, Seq<char>) {
    (e.emp_id, e.name, e.department.name(), e.role)
}

impl EmployeeInfo {
    /// The four fields of the card.
    pub open spec fn fields(&self) -> (Seq<char>, Seq<char>, Seq<char>, Seq<char>) {
        (self.emp_id@, self.name@, self.department@, self.role@)
    }
}

/// The card of an employee record.
pub fn card(e: &Employee) -> (r: EmployeeInfo)
    ensures
        r.fields() == card_of(e@),
{
    EmployeeInfo {
        emp_id: e.emp_id.clone(),
        name: e.name.clone(),
        department: e.department.to_str().to_owned(),
        role: e.role.clone(),
    }
}

/// A colleague one may chat with, and how many of their messages are unread.
pub struct DeptMember {
    pub emp_id: String,
    pub name: String,
    pub role: String,
    pub unread: usize,
}

impl DeptMember {
    /// The fields of the entry.
    pub open spec fn fields(&self) -> (Seq<char>, Seq<char>, Seq<char>, nat) {
        (self.emp_id@, self.name@, self.role@, self.unread as nat)
    }
}

/// The chat entries for the active colleagues of `emp_id` in department `dept`.
pub open spec fn member_entries(
    reg: Seq<EmployeeView>,
    chat: Seq<MessageView>,
    emp_id: Seq<char>,
    dept: Seq<char>,
) -> Seq<(Seq<char>, Seq<char>, Seq<char>, nat)> {
    reg.filter(|e: EmployeeView| e.department.name() == dept && e.is_active).filter(
        |e: EmployeeView| e.emp_id != emp_id,
    ).map_values(|e: EmployeeView| (e.emp_id, e.name, e.role, unread_from(chat, e.emp_id, emp_id)))
}

/// The member list does not depend on the messages, and a new message
/// raises a member's unread count by one exactly when it is an unread message
/// from that member to the requester; every other count stays as it was.
pub proof fn lemma_member_counts_follow_messages(
    reg: Seq<EmployeeView>,
    chat: Seq<MessageView>,
    m: MessageView,
    emp_id: Seq<char>,
    dept: Seq<char>,
)
    ensures
        member_entries(reg, chat.push(m), emp_id, dept).len() == member_entries(reg, chat, emp_id, dept).len(),
        forall|k: int|
            0 <= k < member_entries(reg, chat, emp_id, dept).len() ==> {
                let before = #[trigger] member_entries(reg, chat, emp_id, dept)[k];
                let after = member_entries(reg, chat.push(m), emp_id, dept)[k];
                &&& after.0 == before.0
                &&& after.1 == before.1
                &&& after.2 == before.2
                &&& after.3 == before.3 + if m.from_emp_id == before.0 && m.to_emp_id == emp_id && !m.is_read {
                    1int
                } else {
                    0int
                }
            },
{
    let members = reg.filter(|e: EmployeeView| e.department.name() == dept && e.is_active).filter(
        |e: EmployeeView| e.emp_id != emp_id,
    );
    assert forall|k: int| 0 <= k < member_entries(reg, chat, emp_id, dept).len() implies {
        let before = #[trigger] member_entries(reg, chat, emp_id, dept)[k];
        let after = member_entries(reg, chat.push(m), emp_id, dept)[k];
        &&& after.0 == before.0
        &&& after.1 == before.1
        &&& after.2 == before.2
        &&& after.3 == before.3 + if m.from_emp_id == before.0 && m.to_emp_id == emp_id && !m.is_read {
            1int
        } else {
            0int
        }
    } by {
        let from = members[k].emp_id;
        chat.lemma_filter_push(m, |x: MessageView| x.from_emp_id == from && x.to_emp_id == emp_id && !x.is_read);
    }
}

/// With no messages, every member shows no unread message.
pub proof fn lemma_member_counts_start_at_zero(reg: Seq<EmployeeView>, emp_id: Seq<char>, dept: Seq<char>)
    ensures
        forall|k: int|
            0 <= k < member_entries(reg, Seq::<MessageView>::empty(), emp_id, dept).len() ==> (#[trigger] member_entries(
                reg,
                Seq::<MessageView>::empty(),
                emp_id,
                dept,
            )[k]).3 == 0,
{
    let members = reg.filter(|e: EmployeeView| e.department.name() == dept && e.is_active).filter(
        |e: EmployeeView| e.emp_id != emp_id,
    );
    assert forall|k: int|
        0 <= k < member_entries(reg, Seq::<MessageView>::empty(), emp_id, dept).len() implies (#[trigger] member_entries(
            reg,
            Seq::<MessageView>::empty(),
            emp_id,
            dept,
        )[k]).3 == 0 by {
        let from = members[k].emp_id;
        lemma_filter_none(
            Seq::<MessageView>::empty(),
            |x: MessageView| x.from_emp_id == from && x.to_emp_id == emp_id && !x.is_read,
        );
    }
}

/// A conversation as shown when it is opened.
pub struct Conversation {
    pub emp_a: String,
    pub emp_b: String,
    pub messages: Vec<Message>,
    pub unread: usize,
}

/// An employee's notifications as shown.
pub struct NotificationList {
    pub total: usize,
    pub unread: usize,
    pub notifications: Vec<Notification>,
}

/// A task as shown, with the display names and symbols of its priority and status.
pub struct TaskResponse {
    pub task_id: String,
    pub title: String,
    pub description: String,
    pub priority: String,
    pub priority_emoji: String,
    pub status: String,
    pub status_emoji: String,
    pub created_by: String,
    pub assigned_to: String,
    pub department: String,
    pub created_at: u128,
    pub updated_at: u128,
}

/// The shown form of a task.
pub fn task_to_response(task: &Task) -> (r: TaskResponse)
    ensures
        r.task_id@ == task.task_id@,
        r.title@ == task.title@,
        r.description@ == task.description@,
        r.priority@ == task.priority.name(),
        r.priority_emoji@ == task.priority.symbol(),
        r.status@ == task.status.name(),
        r.status_emoji@ == task.status.symbol(),
        r.created_by@ == task.created_by@,
        r.assigned_to@ == task.assigned_to@,
        r.department@ == task.department@,
        r.created_at == task.created_at,
        r.updated_at == task.updated_at,
{
    TaskResponse {
        task_id: task.task_id.clone(),
        title: task.title.clone(),
        description: task.description.clone(),
        priority: task.priority.to_str().to_owned(),
        priority_emoji: task.priority.emoji().to_owned(),
        status: task.status.to_str().to_owned(),
        status_emoji: task.status.emoji().to_owned(),
        created_by: task.created_by.clone(),
        assigned_to: task.assigned_to.clone(),
        department: task.department.clone(),
        created_at: task.created_at,
        updated_at: task.updated_at,
    }
}

/// A notification as shown, with the name and symbol of its kind.
pub struct NotificationResponse {
    pub notification_id: String,
    pub emp_id: String,
    pub notification_type: String,
    pub emoji: String,
    pub title: String,
    pub message: String,
    pub is_read: bool,
    pub created_at: u128,
    pub related_id: String,
}

/// The shown form of a notification.
pub fn notif_to_response(n: &Notification) -> (r: NotificationResponse)
    ensures
        r.notification_id@ == n.notification_id@,
        r.emp_id@ == n.emp_id@,
        r.notification_type@ == n.notification_type.name(),
        r.emoji@ == n.notification_type.symbol(),
        r.title@ == n.title@,
        r.message@ == n.message@,
        r.is_read == n.is_read,
        r.created_at == n.created_at,
        r.related_id@ == n.related_id@,
{
    NotificationResponse {
        notification_id: n.notification_id.clone(),
        emp_id: n.emp_id.clone(),
        notification_type: n.notification_type.to_str().to_owned(),
        emoji: n.notification_type.emoji().to_owned(),
        title: n.title.clone(),
        message: n.message.clone(),
        is_read: n.is_read,
        created_at: n.created_at,
        related_id: n.related_id.clone(),
    }
}

/// A message as shown.
pub struct MessageResponse {
    pub message_id: String,
    pub from_emp_id: String,
    pub to_emp_id: String,
    pub content: String,
    pub department: String,
    pub is_read: bool,
    pub created_at: u128,
}

/// The shown form of a message.
pub fn msg_to_response(m: &Message) -> (r: MessageResponse)
    ensures
        r.message_id@ == m.message_id@,
        r.from_emp_id@ == m.from_emp_id@,
        r.to_emp_id@ == m.to_emp_id@,
        r.content@ == m.content@,
        r.department@ == m.department@,
        r.is_read == m.is_read,
        r.created_at == m.created_at,
{
    MessageResponse {
        message_id: m.message_id.clone(),
        from_emp_id: m.from_emp_id.clone(),
        to_emp_id: m.to_emp_id.clone(),
        content: m.content.clone(),
        department: m.department.clone(),
        is_read: m.is_read,
        created_at: m.created_at,
    }
}

/// The departments in the order in which statistics list them.
pub open spec fn department_order() -> Seq<Department> {
    seq![Department::HR, Department::Finance, Department::Legal, Department::Engineering, Department::CEO]
}

fn department_list() -> (r: Vec<Department>)
    ensures
        r@ == department_order(),
{
    let mut r: Vec<Department> = Vec::new();
    r.push(Department::HR);
    r.push(Department::Finance);
    r.push(Department::Legal);
    r.push(Department::Engineering);
    r.push(Department::CEO);
    assert(r@ =~= department_order());
    r
}

/// The number of employees, active or not, in a department.
pub open spec fn staff_count(reg: Seq<EmployeeView>, d: Department) -> nat {
    reg.filter(|e: EmployeeView| e.department == d).len()
}

/// The number of tasks with the given status, priority and department.
pub open spec fn task_count(
    tasks: Seq<TaskView>,
    status: Option<TaskStatus>,
    priority: Option<Priority>,
    department: Option<Seq<char>>,
) -> nat {
    tasks.filter(|t: TaskView| task_matches(t, status, priority, department)).len()
}

/// Every task has one of the three statuses.
pub proof fn lemma_status_counts_cover(tasks: Seq<TaskView>)
    ensures
        task_count(tasks, Some(TaskStatus::Todo), None, None) + task_count(tasks, Some(TaskStatus::InProgress), None, None)
            + task_count(tasks, Some(TaskStatus::Done), None, None) == tasks.len(),
    decreases tasks.len(),
{
    let todo = |t: TaskView| task_matches(t, Some(TaskStatus::Todo), None, None);
    let doing = |t: TaskView| task_matches(t, Some(TaskStatus::InProgress), None, None);
    let done = |t: TaskView| task_matches(t, Some(TaskStatus::Done), None, None);
    if tasks.len() == 0 {
        lemma_filter_none(tasks, todo);
        lemma_filter_none(tasks, doing);
        lemma_filter_none(tasks, done);
    } else {
        let rest = tasks.drop_last();
        let t = tasks.last();
        lemma_status_counts_cover(rest);
        assert(tasks =~= rest.push(t));
        rest.lemma_filter_push(t, todo);
        rest.lemma_filter_push(t, doing);
        rest.lemma_filter_push(t, done);
    }
}

/// Every employee belongs to one of the five departments.
pub proof fn lemma_staff_counts_cover(reg: Seq<EmployeeView>)
    ensures
        staff_count(reg, Department::HR) + staff_count(reg, Department::Finance) + staff_count(reg, Department::Legal)
            + staff_count(reg, Department::Engineering) + staff_count(reg, Department::CEO) == reg.len(),
    decreases reg.len(),
{
    let hr = |e: EmployeeView| e.department == Department::HR;
    let fin = |e: EmployeeView| e.department == Department::Finance;
    let legal = |e: EmployeeView| e.department == Department::Legal;
    let eng = |e: EmployeeView| e.department == Department::Engineering;
    let ceo = |e: EmployeeView| e.department == Department::CEO;
    if reg.len() == 0 {
        lemma_filter_none(reg, hr);
        lemma_filter_none(reg, fin);
        lemma_filter_none(reg, legal);
        lemma_filter_none(reg, eng);
        lemma_filter_none(reg, ceo);
    } else {
        let rest = reg.drop_last();
        let e = reg.last();
        lemma_staff_counts_cover(rest);
        assert(reg =~= rest.push(e));
        rest.lemma_filter_push(e, hr);
        rest.lemma_filter_push(e, fin);
        rest.lemma_filter_push(e, legal);
        rest.lemma_filter_push(e, eng);
        rest.lemma_filter_push(e, ceo);
    }
}

/// Narrowing a task count by status, priority or department never raises it.
pub proof fn lemma_task_count_narrowing(
    tasks: Seq<TaskView>,
    status: Option<TaskStatus>,
    priority: Option<Priority>,
    department: Option<Seq<char>>,
)
    ensures
        task_count(tasks, status, priority, department) <= task_count(tasks, None, priority, department),
        task_count(tasks, status, priority, department) <= task_count(tasks, status, None, department),
        task_count(tasks, status, priority, department) <= task_count(tasks, status, priority, None),
        task_count(tasks, status, priority, department) <= tasks.len(),
{
    let all = |t: TaskView| task_matches(t, status, priority, department);
    lemma_filter_len_mono(tasks, all, |t: TaskView| task_matches(t, None, priority, department));
    lemma_filter_len_mono(tasks, all, |t: TaskView| task_matches(t, status, None, department));
    lemma_filter_len_mono(tasks, all, |t: TaskView| task_matches(t, status, priority, None));
    tasks.lemma_filter_len(all);
}

/// The number of strings equal to `x`.
pub open spec fn occurrences(s: Seq<Seq<char>>, x: Seq<char>) -> nat {
    s.filter(|y: Seq<char>| y == x).len()
}

/// The number of strings in `v` equal to `x`.
fn count_equal(v: &Vec<String>, x: &str) -> (r: usize)
    ensures
        r == occurrences(string_views(v@), x@),
{
    let ghost s = string_views(v@);
    let ghost pred = |y: Seq<char>| y == x@;
    let mut count: usize = 0;
    let mut i: usize = 0;
    while i < v.len()
        invariant
            i <= v.len(),
            s == string_views(v@),
            pred == (|y: Seq<char>| y == x@),
            count == s.take(i as int).filter(pred).len(),
            count <= i,
        decreases v.len() - i,
    {
        proof {
            assert(s[i as int] == v@[i as int]@);
            assert(s.take(i + 1) =~= s.take(i as int).push(s[i as int]));
            s.take(i as int).lemma_filter_push(s[i as int], pred);
        }
        if text_eq(v[i].as_str(), x) {
            count = count + 1;
        }
        i = i + 1;
    }
    assert(s.take(i as int) =~= s);
    count
}

/// The number of lines in `v` that are log lines of kind `kind`.
fn count_of_kind(v: &Vec<String>, kind: &str) -> (r: usize)
    ensures
        r == lines_of_kind(string_views(v@), kind@),
{
    let ghost s = string_views(v@);
    let ghost pred = |l: Seq<char>| line_of_kind(l, kind@);
    let mut count: usize = 0;
    let mut i: usize = 0;
    while i < v.len()
        invariant
            i <= v.len(),
            s == string_views(v@),
            pred == (|l: Seq<char>| line_of_kind(l, kind@)),
            count == s.take(i as int).filter(pred).len(),
            count <= i,
        decreases v.len() - i,
    {
        proof {
            assert(s[i as int] == v@[i as int]@);
            assert(s.take(i + 1) =~= s.take(i as int).push(s[i as int]));
            s.take(i as int).lemma_filter_push(s[i as int], pred);
        }
        if line_has_kind(v[i].as_str(), kind) {
            count = count + 1;
        }
        i = i + 1;
    }
    assert(s.take(i as int) =~= s);
    count
}

/// Head counts and task counts of one department.
pub struct DeptStat {
    pub name: String,
    pub employee_count: usize,
    pub task_count: usize,
}

/// Platform-wide statistics.
pub struct PlatformStats {
    pub total_employees: usize,
    pub total_events: usize,
    pub total_tasks: usize,
    pub total_tasks_done: usize,
    pub departments: Vec<DeptStat>,
}

/// The activity of one department.
pub struct DeptActivity {
    pub department: String,
    pub employees: usize,
    pub tasks: usize,
    pub tasks_done: usize,
    pub documents: usize,
}

/// Task, department and platform activity figures.
pub struct Analytics {
    pub tasks_todo: usize,
    pub tasks_in_progress: usize,
    pub tasks_done: usize,
    pub tasks_urgent: usize,
    pub dept_stats: Vec<DeptActivity>,
    pub total_messages: usize,
    pub total_documents: usize,
    pub total_ai_queries: usize,
    pub total_employees: usize,
}

impl AppState {
    /// The card of the employee, or, for an unknown id, a card that says so.
    pub fn employee_info(&self, emp_id: &str) -> (r: EmployeeInfo)
        requires
            self.wf(),
        ensures
            r.fields() == match lookup(self.registry@, emp_id@) {
                Some(e) => card_of(e),
                None => (emp_id@, "Unknown"@, "None"@, "Employee not found"@),
            },
    {
        match self.registry.get_employee(emp_id) {
            Some(e) => card(&e),
            None => EmployeeInfo {
                emp_id: emp_id.to_owned(),
                name: "Unknown".to_owned(),
                department: "None".to_owned(),
                role: "Employee not found".to_owned(),
            },
        }
    }

    /// The cards of all employees, in increasing id order.
    pub fn employee_cards(&self) -> (r: Vec<EmployeeInfo>)
        requires
            self.wf(),
        ensures
            r@.map_values(|c: EmployeeInfo| c.fields()) == roster_by_id(self.registry@).map_values(
                |e: EmployeeView| card_of(e),
            ),
    {
        let all = self.registry.get_all_employees();
        let mut r: Vec<EmployeeInfo> = Vec::new();
        let mut i: usize = 0;
        while i < all.len()
            invariant
                i <= all.len(),
                r@.len() == i,
                employee_views(all@) == roster_by_id(self.registry@),
                forall|k: int| 0 <= k < i ==> #[trigger] r@[k].fields() == card_of(all@[k]@),
            decreases all.len() - i,
        {
            r.push(card(&all[i]));
            i = i + 1;
        }
        assert forall|k: int| 0 <= k < r@.len() implies #[trigger] r@[k].fields() == card_of(
            roster_by_id(self.registry@)[k],
        ) by {
            assert(employee_views(all@)[k] == all@[k]@);
        }
        assert(r@.map_values(|c: EmployeeInfo| c.fields()) =~= roster_by_id(self.registry@).map_values(
            |e: EmployeeView| card_of(e),
        ));
        r
    }

    /// The tasks assigned to the employee, in store order; none for an unknown id.
    pub fn get_my_tasks(&self, emp_id: &str) -> (r: Vec<Task>)
        requires
            self.wf(),
        ensures
            lookup(self.registry@, emp_id@) is None ==> r@.len() == 0,
            lookup(self.registry@, emp_id@) is Some ==> task_views(r@) == self.task_store@.filter(
                |t: TaskView| t.assigned_to == emp_id@,
            ),
    {
        if self.registry.get_employee(emp_id).is_none() {
            return Vec::new();
        }
        self.task_store.get_tasks_for_employee(emp_id)
    }

    /// The tasks created by the employee, in store order; none for an unknown id.
    pub fn get_created_tasks(&self, emp_id: &str) -> (r: Vec<Task>)
        requires
            self.wf(),
        ensures
            lookup(self.registry@, emp_id@) is None ==> r@.len() == 0,
            lookup(self.registry@, emp_id@) is Some ==> task_views(r@) == self.task_store@.filter(
                |t: TaskView| t.created_by == emp_id@,
            ),
    {
        if self.registry.get_employee(emp_id).is_none() {
            return Vec::new();
        }
        self.task_store.get_tasks_created_by(emp_id)
    }

    /// The department of `emp_id` and its other active members, each with the
    /// number of their unread messages to `emp_id`; for an unknown id,
    /// department `Unknown` and no members.
    pub fn get_dept_members(&self, emp_id: &str) -> (r: (String, Vec<DeptMember>))
        requires
            self.wf(),
        ensures
            match lookup(self.registry@, emp_id@) {
                None => r.0@ == "Unknown"@ && r.1@.len() == 0,
                Some(e) => {
                    &&& r.0@ == e.department.name()
                    &&& r.1@.map_values(|m: DeptMember| m.fields()) == member_entries(
                        self.registry@,
                        self.chat_store@,
                        emp_id@,
                        e.department.name(),
                    )
                },
            },
    {
        let employee = match self.registry.get_employee(emp_id) {
            None => {
                return ("Unknown".to_owned(), Vec::new());
            },
            Some(e) => e,
        };
        let department = employee.department.to_str();
        let colleagues = self.registry.get_by_department(department);
        let ghost pool = employee_views(colleagues@);
        let ghost not_me = |e: EmployeeView| e.emp_id != emp_id@;
        let ghost entry = |e: EmployeeView| (e.emp_id, e.name, e.role, unread_from(self.chat_store@, e.emp_id, emp_id@));
        let mut members: Vec<DeptMember> = Vec::new();
        let mut i: usize = 0;
        while i < colleagues.len()
            invariant
                i <= colleagues.len(),
                pool == employee_views(colleagues@),
                not_me == (|e: EmployeeView| e.emp_id != emp_id@),
                entry == (|e: EmployeeView| (e.emp_id, e.name, e.role, unread_from(self.chat_store@, e.emp_id, emp_id@))),
                members@.map_values(|m: DeptMember| m.fields()) == pool.take(i as int).filter(not_me).map_values(entry),
            decreases colleagues.len() - i,
        {
            let e = &colleagues[i];
            proof {
                assert(pool[i as int] == e@);
                assert(pool.take(i + 1) =~= pool.take(i as int).push(e@));
                pool.take(i as int).lemma_filter_push(e@, not_me);
            }
            if !text_eq(e.emp_id.as_str(), emp_id) {
                let unread = self.chat_store.get_unread_from(e.emp_id.as_str(), emp_id);
                let ghost before = members@;
                members.push(DeptMember { emp_id: e.emp_id.clone(), name: e.name.clone(), role: e.role.clone(), unread });
                assert(members@.map_values(|m: DeptMember| m.fields()) =~= before.map_values(|m: DeptMember| m.fields()).push(entry(e@)));
                assert(pool.take(i + 1).filter(not_me).map_values(entry) =~= pool.take(i as int).filter(not_me).map_values(entry).push(entry(e@)));
            }
            i = i + 1;
        }
        assert(pool.take(i as int) =~= pool);
        (department.to_owned(), members)
    }

    /// Opens the conversation of `emp_a` with `emp_b`: marks what `emp_b`
    /// sent to `emp_a` as read, then lists the conversation oldest first and
    /// counts what is still unread from `emp_b` to `emp_a`, which is nothing.
    pub fn open_conversation(&mut self, emp_a: &str, emp_b: &str) -> (r: Conversation)
        requires
            old(self).wf(),
        ensures
            final(self).wf(),
            final(self).registry@ == old(self).registry@,
            final(self).task_store@ == old(self).task_store@,
            final(self).notification_store@ == old(self).notification_store@,
            final(self).chat_store@.len() == old(self).chat_store@.len(),
            forall|k: int|
                0 <= k < old(self).chat_store@.len() ==> #[trigger] final(self).chat_store@[k] == if old(
                    self,
                ).chat_store@[k].to_emp_id == emp_a@ && old(self).chat_store@[k].from_emp_id == emp_b@ {
                    MessageView { is_read: true, ..old(self).chat_store@[k] }
                } else {
                    old(self).chat_store@[k]
                },
            r.emp_a@ == emp_a@,
            r.emp_b@ == emp_b@,
            stable_sorted(
                message_views(r.messages@),
                final(self).chat_store@.filter(|m: MessageView| between(m, emp_a@, emp_b@)),
                message_time(),
                false,
            ),
            r.unread == unread_from(final(self).chat_store@, emp_b@, emp_a@),
            r.unread == 0,
    {
        self.chat_store.mark_conversation_read(emp_a, emp_b);
        let messages = self.chat_store.get_conversation(emp_a, emp_b);
        let unread = self.chat_store.get_unread_from(emp_b, emp_a);
        proof {
            let s = self.chat_store@;
            let pred = |m: MessageView| m.from_emp_id == emp_b@ && m.to_emp_id == emp_a@ && !m.is_read;
            assert forall|i: int| 0 <= i < s.len() implies !pred(#[trigger] s[i]) by {}
            lemma_filter_none(s, pred);
        }
        Conversation { emp_a: emp_a.to_owned(), emp_b: emp_b.to_owned(), messages, unread }
    }

    /// The employee's notifications, newest first, with the total and the
    /// number unread; nothing for an unknown id.
    pub fn get_notifications(&self, emp_id: &str) -> (r: NotificationList)
        requires
            self.wf(),
        ensures
            lookup(self.registry@, emp_id@) is None ==> r.total == 0 && r.unread == 0 && r.notifications@.len() == 0,
            lookup(self.registry@, emp_id@) is Some ==> {
                &&& stable_sorted(
                    notification_views(r.notifications@),
                    self.notification_store@.filter(|n: NotificationView| n.emp_id == emp_id@),
                    notification_time(),
                    true,
                )
                &&& r.total == r.notifications@.len()
                &&& r.unread == self.notification_store@.filter(
                    |n: NotificationView| n.emp_id == emp_id@ && !n.is_read,
                ).len()
                &&& r.unread == notification_views(r.notifications@).filter(|n: NotificationView| !n.is_read).len()
            },
    {
        if self.registry.get_employee(emp_id).is_none() {
            return NotificationList { total: 0, unread: 0, notifications: Vec::new() };
        }
        let notifications = self.notification_store.get_for_employee(emp_id);
        let unread = self.notification_store.get_unread_count(emp_id);
        proof {
            lemma_unread_count_matches_list(self.notification_store@, emp_id@, notification_views(notifications@));
        }
        NotificationList { total: notifications.len(), unread, notifications }
    }

    /// Head counts and task counts: overall, and for each department in
    /// `department_order`. `total_events` is the length of the event log.
    pub fn get_stats(&self, total_events: usize) -> (r: PlatformStats)
        ensures
            r.total_employees == self.registry@.len(),
            r.total_events == total_events,
            r.total_tasks == self.task_store@.len(),
            r.total_tasks_done == task_count(self.task_store@, Some(TaskStatus::Done), None, None),
            r.departments@.len() == 5,
            forall|k: int|
                0 <= k < 5 ==> {
                    let d = #[trigger] department_order()[k];
                    &&& r.departments@[k].name@ == d.name()
                    &&& r.departments@[k].employee_count == staff_count(self.registry@, d)
                    &&& r.departments@[k].task_count == task_count(self.task_store@, None, None, Some(d.name()))
                },
            r.total_tasks_done <= r.total_tasks,
            r.departments@[0].employee_count + r.departments@[1].employee_count + r.departments@[2].employee_count
                + r.departments@[3].employee_count + r.departments@[4].employee_count == r.total_employees,
    {
        proof {
            lemma_staff_counts_cover(self.registry@);
            lemma_task_count_narrowing(self.task_store@, Some(TaskStatus::Done), None, None);
        }
        let depts = department_list();
        let mut departments: Vec<DeptStat> = Vec::new();
        let mut k: usize = 0;
        while k < depts.len()
            invariant
                depts@ == department_order(),
                k <= depts@.len(),
                departments@.len() == k,
                forall|j: int|
                    0 <= j < k ==> {
                        let d = #[trigger] department_order()[j];
                        &&& departments@[j].name@ == d.name()
                        &&& departments@[j].employee_count == staff_count(self.registry@, d)
                        &&& departments@[j].task_count == task_count(self.task_store@, None, None, Some(d.name()))
                    },
            decreases depts@.len() - k,
        {
            let d = depts[k];
            let name = d.to_str();
            let employee_count = self.registry.count_in_department(d);
            let task_count = self.task_store.count_matching(None, None, Some(name));
            departments.push(DeptStat { name: name.to_owned(), employee_count, task_count });
            k = k + 1;
        }
        PlatformStats {
            total_employees: self.registry.count(),
            total_events,
            total_tasks: self.task_store.len(),
            total_tasks_done: self.task_store.count_matching(Some(TaskStatus::Done), None, None),
            departments,
        }
    }

    /// Activity figures. `event_lines` are the lines of the event log: the AI
    /// queries are its lines of kind `UserInput` (the questions that
    /// `begin_query` records) and the messages its lines of kind
    /// `MessageSent`; see `lemma_lines_of_kind_count`. `doc_departments` holds
    /// the department of each stored document.
    pub fn get_analytics(&self, event_lines: &Vec<String>, doc_departments: &Vec<String>) -> (r: Analytics)
        ensures
            r.tasks_todo == task_count(self.task_store@, Some(TaskStatus::Todo), None, None),
            r.tasks_in_progress == task_count(self.task_store@, Some(TaskStatus::InProgress), None, None),
            r.tasks_done == task_count(self.task_store@, Some(TaskStatus::Done), None, None),
            r.tasks_urgent == task_count(self.task_store@, None, Some(Priority::Urgent), None),
            r.total_ai_queries == lines_of_kind(string_views(event_lines@), "UserInput"@),
            r.total_messages == lines_of_kind(string_views(event_lines@), "MessageSent"@),
            r.total_documents == doc_departments@.len(),
            r.total_employees == self.registry@.len(),
            r.dept_stats@.len() == 5,
            forall|k: int|
                0 <= k < 5 ==> {
                    let d = #[trigger] department_order()[k];
                    &&& r.dept_stats@[k].department@ == d.name()
                    &&& r.dept_stats@[k].employees == staff_count(self.registry@, d)
                    &&& r.dept_stats@[k].tasks == task_count(self.task_store@, None, None, Some(d.name()))
                    &&& r.dept_stats@[k].tasks_done == task_count(
                        self.task_store@,
                        Some(TaskStatus::Done),
                        None,
                        Some(d.name()),
                    )
                    &&& r.dept_stats@[k].documents == occurrences(string_views(doc_departments@), d.name())
                },
            r.tasks_todo + r.tasks_in_progress + r.tasks_done == self.task_store@.len(),
            r.tasks_urgent <= self.task_store@.len(),
            r.dept_stats@[0].employees + r.dept_stats@[1].employees + r.dept_stats@[2].employees
                + r.dept_stats@[3].employees + r.dept_stats@[4].employees == r.total_employees,
            forall|k: int| 0 <= k < 5 ==> #[trigger] r.dept_stats@[k].tasks_done <= r.dept_stats@[k].tasks,
    {
        proof {
            lemma_status_counts_cover(self.task_store@);
            lemma_staff_counts_cover(self.registry@);
            lemma_task_count_narrowing(self.task_store@, None, Some(Priority::Urgent), None);
            assert forall|k: int| 0 <= k < 5 implies {
                let d = #[trigger] department_order()[k];
                task_count(self.task_store@, Some(TaskStatus::Done), None, Some(d.name())) <= task_count(
                    self.task_store@,
                    None,
                    None,
                    Some(d.name()),
                )
            } by {
                lemma_task_count_narrowing(self.task_store@, Some(TaskStatus::Done), None, Some(department_order()[k].name()));
            }
        }
        let depts = department_list();
        let mut dept_stats: Vec<DeptActivity> = Vec::new();
        let mut k: usize = 0;
        while k < depts.len()
            invariant
                depts@ == department_order(),
                k <= depts@.len(),
                dept_stats@.len() == k,
                forall|j: int|
                    0 <= j < k ==> {
                        let d = #[trigger] department_order()[j];
                        &&& dept_stats@[j].department@ == d.name()
                        &&& dept_stats@[j].employees == staff_count(self.registry@, d)
                        &&& dept_stats@[j].tasks == task_count(self.task_store@, None, None, Some(d.name()))
                        &&& dept_stats@[j].tasks_done == task_count(
                            self.task_store@,
                            Some(TaskStatus::Done),
                            None,
                            Some(d.name()),
                        )
                        &&& dept_stats@[j].documents == occurrences(string_views(doc_departments@), d.name())
                    },
            decreases depts@.len() - k,
        {
            let d = depts[k];
            let name = d.to_str();
            let employees = self.registry.count_in_department(d);
            let tasks = self.task_store.count_matching(None, None, Some(name));
            let tasks_done = self.task_store.count_matching(Some(TaskStatus::Done), None, Some(name));
            let documents = count_equal(doc_departments, name);
            dept_stats.push(DeptActivity { department: name.to_owned(), employees, tasks, tasks_done, documents });
            k = k + 1;
        }
        Analytics {
            tasks_todo: self.task_store.count_matching(Some(TaskStatus::Todo), None, None),
            tasks_in_progress: self.task_store.count_matching(Some(TaskStatus::InProgress), None, None),
            tasks_done: self.task_store.count_matching(Some(TaskStatus::Done), None, None),
            tasks_urgent: self.task_store.count_matching(None, Some(Priority::Urgent), None),
            dept_stats,
            total_messages: count_of_kind(event_lines, "MessageSent"),
            total_documents: doc_departments.len(),
            total_ai_queries: count_of_kind(event_lines, "UserInput"),
            total_employees: self.registry.count(),
        }
    }
}

} // verus!
