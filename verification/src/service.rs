//! The rules of the WorkBindr service: what each request changes, which
//! events it records in the permanent log, whom it notifies, and what it
//! answers. Reading the clock, the files and the network is left to the caller,
//! which hands in the current time and records the returned events.

use vstd::prelude::*;
use vstd::string::*;

use crate::employees::{
    Department, Employee, EmployeeRegistry, EmployeeView, deactivated, has_id, lookup,
};
use crate::events::{Event, EventView, event_views};
use crate::notifications::{NotificationStore, NotificationType, NotificationView, notification_id_for};
use crate::chat::{ChatStore, MessageView, message_id_for};
use crate::tasks::{
    Priority, Task, TaskStatus, TaskStore, TaskView, find_task, status_update,
    status_update_allowed,
};
use crate::text::{byte_prefix, decimal, decimal_string, text_eq, trim, trimmed, unicode_upper};

verus! {

/// The id `id_<timestamp>` given to queries and documents.
pub open spec fn plain_id_for(timestamp: u128) -> Seq<char> {
    "id_"@ + decimal(timestamp as nat)
}

/// The id `task_<timestamp>` given to tasks.
pub open spec fn task_id_for(timestamp: u128) -> Seq<char> {
    "task_"@ + decimal(timestamp as nat)
}

/// The id of a query or document created at `timestamp` (milliseconds).
pub fn generate_id(timestamp: u128) -> (r: String)
    ensures
        r@ == plain_id_for(timestamp),
{
    "id_".to_owned().concat(decimal_string(timestamp).as_str())
}

/// The id of a task created at `timestamp` (milliseconds).
pub fn generate_task_id(timestamp: u128) -> (r: String)
    ensures
        r@ == task_id_for(timestamp),
{
    "task_".to_owned().concat(decimal_string(timestamp).as_str())
}

/// What a request that changes something answers, and the events it records.
pub struct ActionResult {
    pub success: bool,
    pub message: String,
    /// The events to append to the permanent log, in order.
    pub events: Vec<Event>,
}

/// The state that the service's requests read and change.
pub struct AppState {
    pub registry: EmployeeRegistry,
    pub task_store: TaskStore,
    pub notification_store: NotificationStore,
    pub chat_store: ChatStore,
}

/// The answer to a request that failed: the message, and no events.
pub open spec fn failed(r: ActionResult, message: Seq<char>) -> bool {
    &&& !r.success
    &&& r.message@ == message
    &&& r.events@.len() == 0
}

/// "❌ Employee '<id>' not found."
pub open spec fn employee_not_found(id: Seq<char>) -> Seq<char> {
    "❌ Employee '"@ + id + "' not found."@
}

/// Why a task cannot be created, if it cannot.
pub open spec fn create_task_error(
    reg: Seq<EmployeeView>,
    emp_id: Seq<char>,
    assigned_to: Seq<char>,
    priority: Seq<char>,
) -> Option<Seq<char>> {
    if lookup(reg, emp_id) is None {
        Some(employee_not_found(emp_id))
    } else if lookup(reg, assigned_to) is None {
        Some("❌ Assignee '"@ + assigned_to + "' not found."@)
    } else if Priority::parse_upper(unicode_upper(priority)) is None {
        Some("❌ Invalid priority. Use: Low, Medium, High, Urgent"@)
    } else {
        None
    }
}

/// The answer to a created task.
pub open spec fn task_created_message(
    title: Seq<char>,
    priority: Priority,
    assignee: EmployeeView,
    task_id: Seq<char>,
) -> Seq<char> {
    "✅ Task '"@ + title + "' created! "@ + priority.name() + " priority. Assigned to "@ + assignee.name
        + " ("@ + assignee.role + "). task_id: "@ + task_id
}

/// The alert that tells an assignee about a new task.
pub open spec fn task_assigned_alert(
    creator: EmployeeView,
    assignee: EmployeeView,
    title: Seq<char>,
    priority: Priority,
    task_id: Seq<char>,
    now: u128,
) -> NotificationView {
    NotificationView {
        notification_id: notification_id_for(now),
        emp_id: assignee.emp_id,
        notification_type: NotificationType::TaskAssigned,
        title: "New task assigned to you"@,
        message: creator.name + " assigned you a task: '"@ + title + "' — Priority: "@ + priority.name(),
        is_read: false,
        created_at: now,
        related_id: task_id,
    }
}

/// Why a status change is refused, if it is.
pub open spec fn update_task_error(
    reg: Seq<EmployeeView>,
    tasks: Seq<TaskView>,
    emp_id: Seq<char>,
    task_id: Seq<char>,
    new_status: Seq<char>,
) -> Option<Seq<char>> {
    if lookup(reg, emp_id) is None {
        Some(employee_not_found(emp_id))
    } else if find_task(tasks, task_id) is None {
        Some("❌ Task '"@ + task_id + "' not found."@)
    } else if TaskStatus::parse_upper(unicode_upper(new_status)) is None {
        Some("❌ Invalid status. Use: Todo, InProgress, Done"@)
    } else if !status_update_allowed(tasks, task_id, emp_id) {
        Some(access_denied_message())
    } else {
        None
    }
}

/// The answer to a refused status change.
pub open spec fn access_denied_message() -> Seq<char> {
    "❌ Access denied. Only the assigned employee can update this"@ + " task."@
}

/// The alert that tells a task's creator that it was completed.
pub open spec fn task_completed_alert(
    creator: EmployeeView,
    updater: EmployeeView,
    task: TaskView,
    now: u128,
) -> NotificationView {
    NotificationView {
        notification_id: notification_id_for(now),
        emp_id: creator.emp_id,
        notification_type: NotificationType::TaskCompleted,
        title: "Task completed!"@,
        message: updater.name + " completed the task: '"@ + task.title + "'"@,
        is_read: false,
        created_at: now,
        related_id: task.task_id,
    }
}

/// After an allowed status change, the task found by its id carries the new
/// status and change time, and is otherwise unchanged.
pub proof fn lemma_find_after_update(s: Seq<TaskView>, id: Seq<char>, st: TaskStatus, emp: Seq<char>, now: u128)
    requires
        status_update_allowed(s, id, emp),
    ensures
        find_task(status_update(s, id, st, emp, now), id) == Some(
            TaskView { status: st, updated_at: now, ..find_task(s, id)->0 },
        ),
{
    let i = crate::tasks::task_index(s, id)->0;
    let c = choose|k: int| crate::tasks::is_first_task(s, id, k);
    assert(crate::tasks::is_first_task(s, id, c));
    let n = status_update(s, id, st, emp, now);
    assert(crate::tasks::is_first_task(n, id, i));
    crate::tasks::lemma_task_index_at(n, id, i);
}

/// Why an employee cannot be added, if they cannot.
pub open spec fn add_employee_error(
    reg: Seq<EmployeeView>,
    admin_emp_id: Seq<char>,
    emp_id: Seq<char>,
    department: Seq<char>,
) -> Option<Seq<char>> {
    if lookup(reg, admin_emp_id) is None {
        Some("❌ Admin not found."@)
    } else if lookup(reg, admin_emp_id)->0.department != Department::CEO {
        Some("❌ Access Denied. Only CEO can add employees."@)
    } else if Department::parse_upper(unicode_upper(department)) is None {
        Some("❌ Invalid department '"@ + department + "'. Use: HR, Finance, Legal, Engineering, CEO"@)
    } else if has_id(reg, emp_id) {
        Some("❌ Failed to add employee: "@ + ("Employee ID '"@ + emp_id + "' already exists"@))
    } else {
        None
    }
}

/// Why an employee cannot be deactivated, if they cannot.
pub open spec fn deactivate_error(reg: Seq<EmployeeView>, admin_emp_id: Seq<char>, emp_id: Seq<char>) -> Option<
    Seq<char>,
> {
    if lookup(reg, admin_emp_id) is None {
        Some("❌ Admin not found."@)
    } else if lookup(reg, admin_emp_id)->0.department != Department::CEO {
        Some("❌ Only CEO can deactivate employees."@)
    } else if emp_id == admin_emp_id {
        Some("❌ Cannot deactivate yourself."@)
    } else if !has_id(reg, emp_id) {
        Some("❌ "@ + ("Employee '"@ + emp_id + "' not found"@))
    } else {
        None
    }
}

/// Why a direct message is refused, if it is: both parties must be
/// employees, in the same department unless the sender is the CEO, and the
/// message must hold more than white space.
pub open spec fn send_error(reg: Seq<EmployeeView>, from: Seq<char>, to: Seq<char>, content: Seq<char>) -> Option<
    Seq<char>,
> {
    if lookup(reg, from) is None {
        Some("❌ Sender '"@ + from + "' not found."@)
    } else if lookup(reg, to) is None {
        Some("❌ Receiver '"@ + to + "' not found."@)
    } else if lookup(reg, from)->0.department != Department::CEO && lookup(reg, from)->0.department != lookup(
        reg,
        to,
    )->0.department {
        let sender = lookup(reg, from)->0;
        let receiver = lookup(reg, to)->0;
        Some(
            "❌ You can only message employees in your department ("@ + sender.department.name() + "). "@
                + receiver.name + " is in "@ + receiver.department.name() + "."@,
        )
    } else if trimmed(content).len() == 0 {
        Some("❌ Message cannot be empty."@)
    } else {
        None
    }
}

/// The number of bytes of a message that its alert quotes: at most 50.
pub open spec fn preview_len(content: &str) -> int {
    (if content.len() < 50 { content.len() } else { 50usize }) as int
}

/// The beginning of a message that its alert quotes: its first 50 bytes.
pub open spec fn preview_of(content: &str) -> Seq<char> {
    vstd::utf8::decode_utf8(content.spec_bytes().subrange(0, preview_len(content)))
}

impl AppState {
    /// The state is well formed: employee ids are unique.
    pub open spec fn wf(&self) -> bool {
        self.registry.wf()
    }

    /// Creates a task from `emp_id` for `assigned_to` at time `now`: both must
    /// be employees and the priority must parse. The task starts as Todo and
    /// belongs to the creator's department; the assignee is notified.
    pub fn create_task(
        &mut self,
        emp_id: &str,
        assigned_to: &str,
        title: &str,
        description: &str,
        priority: &str,
        now: u128,
    ) -> (r: ActionResult)
        requires
            old(self).wf(),
        ensures
            final(self).wf(),
            final(self).registry@ == old(self).registry@,
            final(self).chat_store@ == old(self).chat_store@,
            match create_task_error(old(self).registry@, emp_id@, assigned_to@, priority@) {
                Some(m) => {
                    &&& failed(r, m)
                    &&& final(self).task_store@ == old(self).task_store@
                    &&& final(self).notification_store@ == old(self).notification_store@
                },
                None => {
                    let creator = lookup(old(self).registry@, emp_id@)->0;
                    let assignee = lookup(old(self).registry@, assigned_to@)->0;
                    let p = Priority::parse_upper(unicode_upper(priority@))->0;
                    let task_id = task_id_for(now);
                    &&& r.success
                    &&& r.message@ == task_created_message(title@, p, assignee, task_id)
                    &&& final(self).task_store@ == old(self).task_store@.push(
                        TaskView {
                            task_id,
                            title: title@,
                            description: description@,
                            priority: p,
                            status: TaskStatus::Todo,
                            created_by: creator.emp_id,
                            assigned_to: assignee.emp_id,
                            department: creator.department.name(),
                            created_at: now,
                            updated_at: now,
                        },
                    )
                    &&& event_views(r.events@) == seq![
                        EventView::TaskCreated {
                            task_id,
                            title: title@,
                            assigned_to: assignee.name,
                            priority: p.name(),
                            department: creator.department.name(),
                        },
                    ]
                    &&& final(self).notification_store@ == old(self).notification_store@.push(
                        task_assigned_alert(creator, assignee, title@, p, task_id, now),
                    )
                },
            },
    {
        let creator = match self.registry.get_employee(emp_id) {
            Some(e) => e,
            None => {
                let m = "❌ Employee '".to_owned().concat(emp_id).concat("' not found.");
                return ActionResult { success: false, message: m, events: Vec::new() };
            },
        };
        let assignee = match self.registry.get_employee(assigned_to) {
            Some(e) => e,
            None => {
                let m = "❌ Assignee '".to_owned().concat(assigned_to).concat("' not found.");
                return ActionResult { success: false, message: m, events: Vec::new() };
            },
        };
        let p = match Priority::from_str(priority) {
            Some(p) => p,
            None => {
                let m = "❌ Invalid priority. Use: Low, Medium, High, Urgent".to_owned();
                return ActionResult { success: false, message: m, events: Vec::new() };
            },
        };
        let task_id = generate_task_id(now);
        let task = Task {
            task_id: task_id.clone(),
            title: title.to_owned(),
            description: description.to_owned(),
            priority: p,
            status: TaskStatus::Todo,
            created_by: creator.emp_id.clone(),
            assigned_to: assignee.emp_id.clone(),
            department: creator.department.to_str().to_owned(),
            created_at: now,
            updated_at: now,
        };
        self.task_store.add_task(task);
        let event = Event::TaskCreated {
            task_id: task_id.clone(),
            title: title.to_owned(),
            assigned_to: assignee.name.clone(),
            priority: p.to_str().to_owned(),
            department: creator.department.to_str().to_owned(),
        };
        let mut events: Vec<Event> = Vec::new();
        events.push(event);
        let alert = creator.name.clone().concat(" assigned you a task: '").concat(title).concat(
            "' — Priority: ",
        ).concat(p.to_str());
        self.notification_store.create(
            assignee.emp_id.clone(),
            NotificationType::TaskAssigned,
            "New task assigned to you".to_owned(),
            alert,
            task_id.clone(),
            now,
        );
        let m = "✅ Task '".to_owned().concat(title).concat("' created! ").concat(p.to_str()).concat(
            " priority. Assigned to ",
        ).concat(assignee.name.as_str()).concat(" (").concat(assignee.role.as_str()).concat(
            "). task_id: ",
        ).concat(task_id.as_str());
        assert(event_views(events@) =~= seq![event@]);
        ActionResult { success: true, message: m, events }
    }

    /// Changes a task's status at time `now` on behalf of `emp_id`, who must
    /// be an employee and the task's assignee or the CEO. When the new status
    /// is Done, the task's creator is notified.
    pub fn update_task(&mut self, emp_id: &str, task_id: &str, new_status: &str, now: u128) -> (r: ActionResult)
        requires
            old(self).wf(),
        ensures
            final(self).wf(),
            final(self).registry@ == old(self).registry@,
            final(self).chat_store@ == old(self).chat_store@,
            match update_task_error(old(self).registry@, old(self).task_store@, emp_id@, task_id@, new_status@) {
                Some(m) => {
                    &&& failed(r, m)
                    &&& final(self).task_store@ == old(self).task_store@
                    &&& final(self).notification_store@ == old(self).notification_store@
                },
                None => {
                    let st = TaskStatus::parse_upper(unicode_upper(new_status@))->0;
                    let task = find_task(old(self).task_store@, task_id@)->0;
                    let creator = lookup(old(self).registry@, task.created_by);
                    let updater = lookup(old(self).registry@, emp_id@)->0;
                    &&& r.success
                    &&& r.message@ == "✅ Task updated! "@ + task.status.name() + " → "@ + st.name()
                    &&& final(self).task_store@ == status_update(old(self).task_store@, task_id@, st, emp_id@, now)
                    &&& event_views(r.events@) == seq![
                        EventView::TaskUpdated {
                            task_id: task_id@,
                            old_status: task.status.name(),
                            new_status: st.name(),
                            updated_by: emp_id@,
                        },
                    ]
                    &&& final(self).notification_store@ == if st == TaskStatus::Done && creator is Some {
                        old(self).notification_store@.push(task_completed_alert(creator->0, updater, task, now))
                    } else {
                        old(self).notification_store@
                    }
                },
            },
    {
        if self.registry.get_employee(emp_id).is_none() {
            let m = "❌ Employee '".to_owned().concat(emp_id).concat("' not found.");
            return ActionResult { success: false, message: m, events: Vec::new() };
        }
        let old_status = match self.task_store.get_task(task_id) {
            Some(t) => t.status,
            None => {
                let m = "❌ Task '".to_owned().concat(task_id).concat("' not found.");
                return ActionResult { success: false, message: m, events: Vec::new() };
            },
        };
        let st = match TaskStatus::from_str(new_status) {
            Some(s) => s,
            None => {
                let m = "❌ Invalid status. Use: Todo, InProgress, Done".to_owned();
                return ActionResult { success: false, message: m, events: Vec::new() };
            },
        };
        let ghost before = self.task_store@;
        let updated = self.task_store.update_status(task_id, st, emp_id, now);
        if !updated {
            let m = "❌ Access denied. Only the assigned employee can update this".to_owned().concat(" task.");
            return ActionResult { success: false, message: m, events: Vec::new() };
        }
        let event = Event::TaskUpdated {
            task_id: task_id.to_owned(),
            old_status: old_status.to_str().to_owned(),
            new_status: st.to_str().to_owned(),
            updated_by: emp_id.to_owned(),
        };
        let mut events: Vec<Event> = Vec::new();
        events.push(event);
        if st == TaskStatus::Done {
            proof {
                lemma_find_after_update(before, task_id@, st, emp_id@, now);
            }
            if let Some(task) = self.task_store.get_task(task_id) {
                if let Some(creator) = self.registry.get_employee(task.created_by.as_str()) {
                    if let Some(updater) = self.registry.get_employee(emp_id) {
                        let alert = updater.name.clone().concat(" completed the task: '").concat(
                            task.title.as_str(),
                        ).concat("'");
                        self.notification_store.create(
                            creator.emp_id.clone(),
                            NotificationType::TaskCompleted,
                            "Task completed!".to_owned(),
                            alert,
                            task_id.to_owned(),
                            now,
                        );
                    }
                }
            }
        }
        let m = "✅ Task updated! ".to_owned().concat(old_status.to_str()).concat(" → ").concat(st.to_str());
        assert(event_views(events@) =~= seq![event@]);
        ActionResult { success: true, message: m, events }
    }

    /// Adds an employee on behalf of `admin_emp_id`, who must be the CEO, at
    /// time `now`. Records the addition and notifies the admin.
    pub fn add_employee(
        &mut self,
        admin_emp_id: &str,
        emp_id: &str,
        name: &str,
        department: &str,
        role: &str,
        now: u128,
    ) -> (r: ActionResult)
        requires
            old(self).wf(),
        ensures
            final(self).wf(),
            final(self).task_store@ == old(self).task_store@,
            final(self).chat_store@ == old(self).chat_store@,
            match add_employee_error(old(self).registry@, admin_emp_id@, emp_id@, department@) {
                Some(m) => {
                    &&& failed(r, m)
                    &&& final(self).registry@ == old(self).registry@
                    &&& final(self).notification_store@ == old(self).notification_store@
                },
                None => {
                    let d = Department::parse_upper(unicode_upper(department@))->0;
                    &&& r.success
                    &&& r.message@ == "✅ Employee '"@ + name@ + "' added successfully! ID: "@ + emp_id@
                        + " | Department: "@ + d.name() + " | Role: "@ + role@
                    &&& final(self).registry@ == old(self).registry@.push(
                        EmployeeView {
                            emp_id: emp_id@,
                            name: name@,
                            department: d,
                            role: role@,
                            is_active: true,
                            created_at: now,
                        },
                    )
                    &&& event_views(r.events@) == seq![
                        EventView::EmployeeAdded { emp_id: emp_id@, name: name@, department: d.name() },
                    ]
                    &&& final(self).notification_store@ == old(self).notification_store@.push(
                        NotificationView {
                            notification_id: notification_id_for(now),
                            emp_id: admin_emp_id@,
                            notification_type: NotificationType::NewEmployee,
                            title: "New employee added"@,
                            message: "Successfully added "@ + name@ + " ("@ + emp_id@ + ") to "@ + department@
                                + " department"@,
                            is_read: false,
                            created_at: now,
                            related_id: emp_id@,
                        },
                    )
                },
            },
    {
        match self.registry.get_employee(admin_emp_id) {
            None => {
                return ActionResult { success: false, message: "❌ Admin not found.".to_owned(), events: Vec::new() };
            },
            Some(admin) => {
                if admin.department != Department::CEO {
                    return ActionResult {
                        success: false,
                        message: "❌ Access Denied. Only CEO can add employees.".to_owned(),
                        events: Vec::new(),
                    };
                }
            },
        }
        let d = match Department::from_str(department) {
            Some(d) => d,
            None => {
                let m = "❌ Invalid department '".to_owned().concat(department).concat(
                    "'. Use: HR, Finance, Legal, Engineering, CEO",
                );
                return ActionResult { success: false, message: m, events: Vec::new() };
            },
        };
        match self.registry.add_employee(emp_id.to_owned(), name.to_owned(), d, role.to_owned(), now) {
            Err(e) => {
                let m = "❌ Failed to add employee: ".to_owned().concat(e.as_str());
                ActionResult { success: false, message: m, events: Vec::new() }
            },
            Ok(()) => {
                let event = Event::EmployeeAdded {
                    emp_id: emp_id.to_owned(),
                    name: name.to_owned(),
                    department: d.to_str().to_owned(),
                };
                let mut events: Vec<Event> = Vec::new();
                events.push(event);
                let alert = "Successfully added ".to_owned().concat(name).concat(" (").concat(emp_id).concat(
                    ") to ",
                ).concat(department).concat(" department");
                self.notification_store.create(
                    admin_emp_id.to_owned(),
                    NotificationType::NewEmployee,
                    "New employee added".to_owned(),
                    alert,
                    emp_id.to_owned(),
                    now,
                );
                let m = "✅ Employee '".to_owned().concat(name).concat("' added successfully! ID: ").concat(
                    emp_id,
                ).concat(" | Department: ").concat(d.to_str()).concat(" | Role: ").concat(role);
                assert(event_views(events@) =~= seq![event@]);
                ActionResult { success: true, message: m, events }
            },
        }
    }

    /// Deactivates an employee on behalf of `admin_emp_id`, who must be the
    /// CEO and may not deactivate themselves.
    pub fn deactivate_employee(&mut self, admin_emp_id: &str, emp_id: &str) -> (r: ActionResult)
        requires
            old(self).wf(),
        ensures
            final(self).wf(),
            final(self).task_store@ == old(self).task_store@,
            final(self).chat_store@ == old(self).chat_store@,
            final(self).notification_store@ == old(self).notification_store@,
            r.events@.len() == 0,
            match deactivate_error(old(self).registry@, admin_emp_id@, emp_id@) {
                Some(m) => {
                    &&& failed(r, m)
                    &&& final(self).registry@ == old(self).registry@
                },
                None => {
                    &&& r.success
                    &&& r.message@ == "✅ Employee "@ + emp_id@
                        + " deactivated. They can no longer access the platform."@
                    &&& final(self).registry@ == deactivated(old(self).registry@, emp_id@)
                },
            },
    {
        match self.registry.get_employee(admin_emp_id) {
            None => {
                return ActionResult { success: false, message: "❌ Admin not found.".to_owned(), events: Vec::new() };
            },
            Some(admin) => {
                if admin.department != Department::CEO {
                    return ActionResult {
                        success: false,
                        message: "❌ Only CEO can deactivate employees.".to_owned(),
                        events: Vec::new(),
                    };
                }
            },
        }
        if text_eq(emp_id, admin_emp_id) {
            return ActionResult {
                success: false,
                message: "❌ Cannot deactivate yourself.".to_owned(),
                events: Vec::new(),
            };
        }
        match self.registry.deactivate_employee(emp_id) {
            Ok(()) => {
                let m = "✅ Employee ".to_owned().concat(emp_id).concat(
                    " deactivated. They can no longer access the platform.",
                );
                ActionResult { success: true, message: m, events: Vec::new() }
            },
            Err(e) => {
                let m = "❌ ".to_owned().concat(e.as_str());
                ActionResult { success: false, message: m, events: Vec::new() }
            },
        }
    }

    /// Checks a direct message without sending it: `Ok` holds the sender and
    /// the receiver, `Err` the answer that refuses it.
    pub fn check_message(&self, from_emp_id: &str, to_emp_id: &str, content: &str) -> (r: Result<
        (Employee, Employee),
        String,
    >)
        requires
            self.wf(),
        ensures
            match send_error(self.registry@, from_emp_id@, to_emp_id@, content@) {
                Some(m) => r matches Err(e) && e@ == m,
                None => r matches Ok((s, t)) && Some(s@) == lookup(self.registry@, from_emp_id@) && Some(t@)
                    == lookup(self.registry@, to_emp_id@),
            },
    {
        let sender = match self.registry.get_employee(from_emp_id) {
            None => {
                return Err("❌ Sender '".to_owned().concat(from_emp_id).concat("' not found."));
            },
            Some(e) => e,
        };
        let receiver = match self.registry.get_employee(to_emp_id) {
            None => {
                return Err("❌ Receiver '".to_owned().concat(to_emp_id).concat("' not found."));
            },
            Some(e) => e,
        };
        if sender.department != Department::CEO && sender.department != receiver.department {
            let m = "❌ You can only message employees in your department (".to_owned().concat(
                sender.department.to_str(),
            ).concat("). ").concat(receiver.name.as_str()).concat(" is in ").concat(
                receiver.department.to_str(),
            ).concat(".");
            return Err(m);
        }
        if trim(content).is_empty() {
            return Err("❌ Message cannot be empty.".to_owned());
        }
        Ok((sender, receiver))
    }

    /// Sends a direct message at time `now`, trimmed of surrounding white
    /// space, when `check_message` accepts it; records it and alerts the
    /// receiver with its first 50 bytes.
    pub fn send_message(&mut self, from_emp_id: &str, to_emp_id: &str, content: &str, now: u128) -> (r: ActionResult)
        requires
            old(self).wf(),
            send_error(old(self).registry@, from_emp_id@, to_emp_id@, content@) is None ==> vstd::utf8::is_char_boundary(
                content.spec_bytes(),
                preview_len(content),
            ),
        ensures
            final(self).wf(),
            final(self).registry@ == old(self).registry@,
            final(self).task_store@ == old(self).task_store@,
            match send_error(old(self).registry@, from_emp_id@, to_emp_id@, content@) {
                Some(m) => {
                    &&& failed(r, m)
                    &&& final(self).chat_store@ == old(self).chat_store@
                    &&& final(self).notification_store@ == old(self).notification_store@
                },
                None => {
                    let sender = lookup(old(self).registry@, from_emp_id@)->0;
                    let receiver = lookup(old(self).registry@, to_emp_id@)->0;
                    let message_id = message_id_for(now);
                    &&& r.success
                    &&& r.message@ == "✅ Message sent!"@
                    &&& final(self).chat_store@ == old(self).chat_store@.push(
                        MessageView {
                            message_id,
                            from_emp_id: from_emp_id@,
                            to_emp_id: to_emp_id@,
                            content: trimmed(content@),
                            department: sender.department.name(),
                            is_read: false,
                            created_at: now,
                        },
                    )
                    &&& event_views(r.events@) == seq![
                        EventView::MessageSent {
                            message_id,
                            from_emp_id: sender.emp_id,
                            to_emp_id: receiver.emp_id,
                            department: sender.department.name(),
                        },
                    ]
                    &&& final(self).notification_store@ == old(self).notification_store@.push(
                        NotificationView {
                            notification_id: notification_id_for(now),
                            emp_id: receiver.emp_id,
                            notification_type: NotificationType::TaskAssigned,
                            title: "New message from "@ + sender.name,
                            message: sender.name + ": "@ + preview_of(content),
                            is_read: false,
                            created_at: now,
                            related_id: message_id,
                        },
                    )
                },
            },
    {
        let (sender, receiver) = match self.check_message(from_emp_id, to_emp_id, content) {
            Err(m) => {
                return ActionResult { success: false, message: m, events: Vec::new() };
            },
            Ok(parties) => parties,
        };
        let department = sender.department.to_str();
        let message = self.chat_store.send_message(
            from_emp_id.to_owned(),
            to_emp_id.to_owned(),
            trim(content).to_owned(),
            department.to_owned(),
            now,
        );
        let event = Event::MessageSent {
            message_id: message.message_id.clone(),
            from_emp_id: sender.emp_id.clone(),
            to_emp_id: receiver.emp_id.clone(),
            department: department.to_owned(),
        };
        let mut events: Vec<Event> = Vec::new();
        events.push(event);
        let title = "New message from ".to_owned().concat(sender.name.as_str());
        let alert = sender.name.clone().concat(": ").concat(byte_prefix(content, 50));
        self.notification_store.create(
            receiver.emp_id.clone(),
            NotificationType::TaskAssigned,
            title,
            alert,
            message.message_id.clone(),
            now,
        );
        assert(event_views(events@) =~= seq![event@]);
        ActionResult { success: true, message: "✅ Message sent!".to_owned(), events }
    }
}

} // verus!
