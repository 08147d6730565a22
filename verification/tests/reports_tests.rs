use workbindr::chat::ChatStore;
use workbindr::employees::EmployeeRegistry;
use workbindr::notifications::NotificationStore;
use workbindr::service::AppState;
use workbindr::tasks::TaskStore;

fn fresh() -> AppState {
    AppState {
        registry: EmployeeRegistry::new(Vec::new()),
        task_store: TaskStore::new(Vec::new()),
        notification_store: NotificationStore::new(Vec::new()),
        chat_store: ChatStore::new(Vec::new()),
    }
}

#[test]
fn employee_cards() {
    let s = fresh();
    let c = s.employee_info("0005");
    assert_eq!((c.emp_id.as_str(), c.name.as_str(), c.department.as_str(), c.role.as_str()), ("0005", "Vikram Mehta", "Legal", "Legal Manager"));
    let c = s.employee_info("abc");
    assert_eq!((c.emp_id.as_str(), c.name.as_str(), c.department.as_str(), c.role.as_str()), ("abc", "Unknown", "None", "Employee not found"));
    let cards = s.employee_cards();
    assert_eq!(cards.len(), 9);
    assert_eq!(cards[8].name, "Divya Reddy");
}

#[test]
fn dept_members_with_unread() {
    let mut s = fresh();
    s.send_message("0008", "0007", "ping", 1);
    s.send_message("0008", "0007", "ping2", 2);
    let (dept, members) = s.get_dept_members("0007");
    assert_eq!(dept, "Engineering");
    assert_eq!(members.len(), 1);
    assert_eq!(members[0].emp_id, "0008");
    assert_eq!(members[0].unread, 2);
    let (dept, members) = s.get_dept_members("nobody");
    assert_eq!(dept, "Unknown");
    assert!(members.is_empty());
}

#[test]
fn notification_lists() {
    let mut s = fresh();
    s.create_task("0001", "0002", "A", "a", "Low", 10);
    s.create_task("0001", "0002", "B", "b", "Low", 20);
    let l = s.get_notifications("0002");
    assert_eq!(l.total, 2);
    assert_eq!(l.unread, 2);
    assert_eq!(l.notifications[0].related_id, "task_20");
    let l = s.get_notifications("none");
    assert_eq!((l.total, l.unread, l.notifications.len()), (0, 0, 0));
    assert_eq!(s.get_my_tasks("0002").len(), 2);
    assert_eq!(s.get_created_tasks("0001").len(), 2);
    assert!(s.get_my_tasks("zzz").is_empty());
}

#[test]
fn stats_and_analytics() {
    let mut s = fresh();
    s.create_task("0001", "0002", "A", "a", "Urgent", 10);
    s.create_task("0003", "0004", "B", "b", "Low", 11);
    s.update_task("0002", "task_10", "Done", 12);
    let st = s.get_stats(7);
    assert_eq!(st.total_employees, 9);
    assert_eq!(st.total_events, 7);
    assert_eq!(st.total_tasks, 2);
    assert_eq!(st.total_tasks_done, 1);
    let names: Vec<&str> = st.departments.iter().map(|d| d.name.as_str()).collect();
    assert_eq!(names, vec!["HR", "Finance", "Legal", "Engineering", "CEO"]);
    assert_eq!(st.departments[0].employee_count, 2);
    assert_eq!(st.departments[0].task_count, 1);
    assert_eq!(st.departments[4].employee_count, 1);
    let lines = vec![
        "[1] EVENT: UserInput | query_id: id_1 | text: a".to_string(),
        "[2] EVENT: MessageSent | message_id: msg_2 | from: 0001 | to: 0002 | department: HR".to_string(),
        "[3] EVENT: UserInput | query_id: id_3 | text: b".to_string(),
    ];
    let docs = vec!["HR".to_string(), "Finance".to_string(), "HR".to_string()];
    let a = s.get_analytics(&lines, &docs);
    assert_eq!((a.tasks_todo, a.tasks_in_progress, a.tasks_done, a.tasks_urgent), (1, 0, 1, 1));
    assert_eq!(a.total_ai_queries, 2);
    assert_eq!(a.total_messages, 1);
    assert_eq!(a.total_documents, 3);
    assert_eq!(a.total_employees, 9);
    assert_eq!(a.dept_stats[0].documents, 2);
    assert_eq!(a.dept_stats[0].tasks_done, 1);
    assert_eq!(a.dept_stats[1].tasks, 1);
    assert_eq!(a.dept_stats[1].tasks_done, 0);
}

#[test]
fn analytics_counts_add_up() {
    let mut s = fresh();
    s.create_task("0001", "0002", "A", "a", "Urgent", 10);
    s.create_task("0003", "0004", "B", "b", "Low", 11);
    s.create_task("0001", "0002", "C", "c", "Urgent", 12);
    s.update_task("0002", "task_10", "Done", 13);
    s.update_task("0002", "task_12", "InProgress", 14);
    let a = s.get_analytics(&Vec::new(), &Vec::new());
    assert_eq!((a.tasks_todo, a.tasks_in_progress, a.tasks_done), (1, 1, 1));
    assert_eq!(a.tasks_todo + a.tasks_in_progress + a.tasks_done, 3);
    assert!(a.tasks_urgent <= 3);
    assert_eq!(a.tasks_urgent, 2);
    let staff: usize = a.dept_stats.iter().map(|d| d.employees).sum();
    assert_eq!(staff, a.total_employees);
    for d in &a.dept_stats {
        assert!(d.tasks_done <= d.tasks);
    }
    let st = s.get_stats(0);
    let staff: usize = st.departments.iter().map(|d| d.employee_count).sum();
    assert_eq!(staff, st.total_employees);
    assert!(st.total_tasks_done <= st.total_tasks);
}

#[test]
fn notification_unread_matches_list() {
    let mut s = fresh();
    s.create_task("0001", "0002", "A", "a", "Low", 10);
    s.create_task("0001", "0002", "B", "b", "Low", 20);
    s.create_task("0001", "0002", "C", "c", "Low", 30);
    let first = s.get_notifications("0002").notifications[1].notification_id.clone();
    s.notification_store.mark_as_read(&first);
    let l = s.get_notifications("0002");
    assert_eq!(l.unread, 2);
    assert_eq!(l.notifications.iter().filter(|n| !n.is_read).count(), l.unread);
}

#[test]
fn analytics_count_questions_not_admin_records() {
    let mut s = fresh();
    let r = s.add_employee("0000", "0100", "Nia", "Legal", "Clerk", 5);
    assert!(r.success);
    let q = s.begin_query("0004", "budget?", 6);
    let mut lines: Vec<String> = r.events.iter().map(|e| workbindr::events::log_entry(e, 5)).collect();
    lines.extend(q.events.iter().map(|e| workbindr::events::log_entry(e, 6)));
    lines.push("[7] EVENT: DocumentAdded | doc_id: id_7 | content: see EVENT: UserInput here".to_string());
    lines.push("noise EVENT: UserInput |".to_string());
    let a = s.get_analytics(&lines, &Vec::new());
    assert_eq!(a.total_ai_queries, 1);
    assert_eq!(a.total_messages, 0);
    assert_eq!(a.total_employees, 10);
}
