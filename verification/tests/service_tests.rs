use workbindr::chat::ChatStore;
use workbindr::employees::EmployeeRegistry;
use workbindr::events::{log_entry, Event};
use workbindr::notifications::{NotificationStore, NotificationType};
use workbindr::service::{generate_id, generate_task_id, AppState};
use workbindr::tasks::{TaskStatus, TaskStore};

fn fresh() -> AppState {
    AppState {
        registry: EmployeeRegistry::new(Vec::new()),
        task_store: TaskStore::new(Vec::new()),
        notification_store: NotificationStore::new(Vec::new()),
        chat_store: ChatStore::new(Vec::new()),
    }
}

#[test]
fn ids_carry_the_time() {
    assert_eq!(generate_id(1700000000000), "id_1700000000000");
    assert_eq!(generate_task_id(42), "task_42");
}

#[test]
fn create_task_flow() {
    let mut s = fresh();
    let r = s.create_task("0001", "0002", "Payroll", "Run payroll", "high", 1000);
    assert!(r.success);
    assert_eq!(
        r.message,
        "✅ Task 'Payroll' created! High priority. Assigned to Rahul Verma (HR Assistant). task_id: task_1000"
    );
    let t = s.task_store.get_task("task_1000").unwrap();
    assert_eq!(t.status, TaskStatus::Todo);
    assert_eq!(t.department, "HR");
    assert_eq!(t.created_by, "0001");
    assert_eq!(t.assigned_to, "0002");
    assert_eq!(r.events.len(), 1);
    assert_eq!(
        log_entry(&r.events[0], 5),
        "[5] EVENT: TaskCreated | task_id: task_1000 | title: Payroll | assigned_to: Rahul Verma | priority: High | department: HR"
    );
    let n = s.notification_store.get_for_employee("0002");
    assert_eq!(n.len(), 1);
    assert_eq!(n[0].title, "New task assigned to you");
    assert_eq!(n[0].message, "Priya Sharma assigned you a task: 'Payroll' — Priority: High");
    assert_eq!(n[0].related_id, "task_1000");
    assert_eq!(n[0].notification_type, NotificationType::TaskAssigned);
}

#[test]
fn create_task_refusals() {
    let mut s = fresh();
    let r = s.create_task("9999", "0002", "x", "y", "Low", 1);
    assert!(!r.success);
    assert_eq!(r.message, "❌ Employee '9999' not found.");
    let r = s.create_task("0001", "9999", "x", "y", "Low", 1);
    assert_eq!(r.message, "❌ Assignee '9999' not found.");
    let r = s.create_task("0001", "0002", "x", "y", "Whenever", 1);
    assert_eq!(r.message, "❌ Invalid priority. Use: Low, Medium, High, Urgent");
    assert!(r.events.is_empty());
    assert_eq!(s.task_store.len(), 0);
}

#[test]
fn update_task_flow() {
    let mut s = fresh();
    s.create_task("0001", "0002", "Payroll", "Run payroll", "Medium", 1000);
    let r = s.update_task("0001", "task_1000", "Done", 2000);
    assert!(!r.success);
    assert_eq!(r.message, format!("❌ Access denied. Only the assigned employee can update this {}.", "task"));
    let r = s.update_task("0002", "task_1000", "in_progress", 2000);
    assert!(r.success);
    assert_eq!(r.message, "✅ Task updated! Todo → InProgress");
    assert_eq!(s.notification_store.get_for_employee("0001").len(), 0);
    let r = s.update_task("0002", "task_1000", "done", 3000);
    assert!(r.success);
    assert_eq!(
        log_entry(&r.events[0], 3001),
        "[3001] EVENT: TaskUpdated | task_id: task_1000 | old_status: InProgress | new_status: Done | updated_by: 0002"
    );
    let n = s.notification_store.get_for_employee("0001");
    assert_eq!(n.len(), 1);
    assert_eq!(n[0].title, "Task completed!");
    assert_eq!(n[0].message, "Rahul Verma completed the task: 'Payroll'");
    assert_eq!(s.task_store.get_task("task_1000").unwrap().updated_at, 3000);
    assert_eq!(s.update_task("9", "task_1000", "Done", 1).message, "❌ Employee '9' not found.");
    assert_eq!(s.update_task("0002", "task_9", "Done", 1).message, "❌ Task 'task_9' not found.");
    assert_eq!(s.update_task("0002", "task_1000", "Later", 1).message, "❌ Invalid status. Use: Todo, InProgress, Done");
}

#[test]
fn admin_adds_and_deactivates() {
    let mut s = fresh();
    let r = s.add_employee("0001", "0100", "Nia", "Legal", "Clerk", 500);
    assert_eq!(r.message, "❌ Access Denied. Only CEO can add employees.");
    let r = s.add_employee("0000", "0100", "Nia", "Marketing", "Clerk", 500);
    assert_eq!(r.message, "❌ Invalid department 'Marketing'. Use: HR, Finance, Legal, Engineering, CEO");
    let r = s.add_employee("0000", "0100", "Nia", "legal", "Clerk", 500);
    assert!(r.success);
    assert_eq!(r.message, "✅ Employee 'Nia' added successfully! ID: 0100 | Department: Legal | Role: Clerk");
    match &r.events[0] {
        Event::EmployeeAdded { emp_id, name, department } => {
            assert_eq!(emp_id, "0100");
            assert_eq!(name, "Nia");
            assert_eq!(department, "Legal");
        }
        _ => panic!("wrong event"),
    }
    let n = s.notification_store.get_for_employee("0000");
    assert_eq!(n[0].message, "Successfully added Nia (0100) to legal department");
    let r = s.add_employee("0000", "0100", "Nia", "Legal", "Clerk", 600);
    assert_eq!(r.message, "❌ Failed to add employee: Employee ID '0100' already exists");
    assert_eq!(s.add_employee("7", "1", "a", "HR", "b", 1).message, "❌ Admin not found.");

    assert_eq!(s.deactivate_employee("0001", "0100").message, "❌ Only CEO can deactivate employees.");
    assert_eq!(s.deactivate_employee("0000", "0000").message, "❌ Cannot deactivate yourself.");
    assert_eq!(s.deactivate_employee("0000", "4444").message, "❌ Employee '4444' not found");
    let r = s.deactivate_employee("0000", "0100");
    assert!(r.success);
    assert_eq!(r.message, "✅ Employee 0100 deactivated. They can no longer access the platform.");
    assert!(!s.registry.get_employee("0100").unwrap().is_active);
}

#[test]
fn messaging_rules() {
    let mut s = fresh();
    assert_eq!(s.send_message("9", "0002", "hi", 1).message, "❌ Sender '9' not found.");
    assert_eq!(s.send_message("0001", "9", "hi", 1).message, "❌ Receiver '9' not found.");
    assert_eq!(
        s.send_message("0001", "0003", "hi", 1).message,
        "❌ You can only message employees in your department (HR). Sneha Patil is in Finance."
    );
    assert_eq!(s.send_message("0001", "0002", " \n\t ", 1).message, "❌ Message cannot be empty.");
    assert!(s.check_message("0000", "0007", "hello").is_ok());
    let r = s.send_message("0000", "0007", "  hello from the CEO  ", 900);
    assert!(r.success);
    assert_eq!(r.message, "✅ Message sent!");
    let conv = s.chat_store.get_conversation("0007", "0000");
    assert_eq!(conv.len(), 1);
    assert_eq!(conv[0].content, "hello from the CEO");
    assert_eq!(conv[0].department, "CEO");
    assert_eq!(
        log_entry(&r.events[0], 901),
        "[901] EVENT: MessageSent | message_id: msg_900 | from: 0000 | to: 0007 | department: CEO"
    );
    let long = "x".repeat(80);
    s.send_message("0001", "0002", &long, 950);
    let alerts = s.notification_store.get_for_employee("0002");
    assert_eq!(alerts[0].title, "New message from Priya Sharma");
    assert_eq!(alerts[0].message, format!("Priya Sharma: {}", "x".repeat(50)));
    assert_eq!(alerts[0].related_id, "msg_950");
}

#[test]
fn opening_a_conversation_clears_unread() {
    let mut s = fresh();
    s.send_message("0001", "0002", "one", 1);
    s.send_message("0001", "0002", "two", 2);
    s.send_message("0002", "0001", "back", 3);
    assert_eq!(s.chat_store.get_unread_from("0001", "0002"), 2);
    let c = s.open_conversation("0002", "0001");
    assert_eq!(c.unread, 0);
    assert_eq!(c.messages.len(), 3);
    assert_eq!(c.messages[0].content, "one");
    assert_eq!(c.messages[2].content, "back");
    assert_eq!(s.chat_store.get_unread_from("0001", "0002"), 0);
    assert_eq!(s.chat_store.get_unread_from("0002", "0001"), 1);
}
