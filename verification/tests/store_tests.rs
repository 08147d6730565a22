use workbindr::chat::{ChatStore, Message};
use workbindr::notifications::{Notification, NotificationStore, NotificationType};
use workbindr::tasks::{Priority, Task, TaskStatus, TaskStore};

fn task(id: &str, by: &str, to: &str, dept: &str) -> Task {
    Task {
        task_id: id.to_string(),
        title: format!("title {}", id),
        description: "d".to_string(),
        priority: Priority::High,
        status: TaskStatus::Todo,
        created_by: by.to_string(),
        assigned_to: to.to_string(),
        department: dept.to_string(),
        created_at: 1,
        updated_at: 1,
    }
}

#[test]
fn task_store_selects() {
    let mut store = TaskStore::new(Vec::new());
    store.add_task(task("t1", "0001", "0002", "HR"));
    store.add_task(task("t2", "0003", "0002", "Finance"));
    store.add_task(task("t3", "0001", "0004", "HR"));
    let mine: Vec<String> = store.get_tasks_for_employee("0002").into_iter().map(|t| t.task_id).collect();
    assert_eq!(mine, vec!["t1", "t2"]);
    let created: Vec<String> = store.get_tasks_created_by("0001").into_iter().map(|t| t.task_id).collect();
    assert_eq!(created, vec!["t1", "t3"]);
    let hr: Vec<String> = store.get_tasks_by_department("HR").into_iter().map(|t| t.task_id).collect();
    assert_eq!(hr, vec!["t1", "t3"]);
    assert_eq!(store.get_task("t2").unwrap().department, "Finance");
    assert!(store.get_task("t9").is_none());
    assert_eq!(store.get_all_tasks().len(), 3);
    assert_eq!(store.count_matching(None, Some(Priority::High), Some("HR")), 2);
}

#[test]
fn status_change_permissions() {
    let mut store = TaskStore::new(vec![task("t1", "0001", "0002", "HR")]);
    // neither the assignee nor the CEO
    assert!(!store.update_status("t1", TaskStatus::Done, "0001", 50));
    assert_eq!(store.get_task("t1").unwrap().status, TaskStatus::Todo);
    // the assignee
    assert!(store.update_status("t1", TaskStatus::InProgress, "0002", 60));
    let t = store.get_task("t1").unwrap();
    assert_eq!(t.status, TaskStatus::InProgress);
    assert_eq!(t.updated_at, 60);
    assert_eq!(t.created_at, 1);
    // the CEO
    assert!(store.update_status("t1", TaskStatus::Done, "0000", 70));
    assert_eq!(store.get_task("t1").unwrap().status, TaskStatus::Done);
    // unknown task
    assert!(!store.update_status("nope", TaskStatus::Done, "0000", 80));
}

#[test]
fn first_task_with_an_id_is_the_one_changed() {
    let mut store = TaskStore::new(vec![task("t1", "0001", "0002", "HR"), task("t1", "0001", "0003", "HR")]);
    assert!(!store.update_status("t1", TaskStatus::Done, "0003", 9));
    let all = store.get_all_tasks();
    assert_eq!(all[0].status, TaskStatus::Todo);
    assert_eq!(all[1].status, TaskStatus::Todo);
}

#[test]
fn notifications_newest_first_and_read_marks() {
    let mut store = NotificationStore::new(Vec::new());
    assert_eq!(NotificationStore::generate_id(123), "notif_123");
    store.create("0001".into(), NotificationType::TaskAssigned, "a".into(), "m".into(), "r".into(), 10);
    store.create("0002".into(), NotificationType::TaskAssigned, "b".into(), "m".into(), "r".into(), 20);
    store.create("0001".into(), NotificationType::NewEmployee, "c".into(), "m".into(), "r".into(), 30);
    store.create("0001".into(), NotificationType::DocumentAdded, "d".into(), "m".into(), "r".into(), 30);
    let mine: Vec<String> = store.get_for_employee("0001").into_iter().map(|n| n.title).collect();
    assert_eq!(mine, vec!["c", "d", "a"]);
    assert_eq!(store.get_unread_count("0001"), 3);
    store.mark_as_read("notif_30");
    assert_eq!(store.get_unread_count("0001"), 2);
    let list = store.get_for_employee("0001");
    assert!(list[0].is_read);
    assert!(!list[1].is_read);
    store.mark_all_read("0001");
    assert_eq!(store.get_unread_count("0001"), 0);
    assert_eq!(store.get_unread_count("0002"), 1);
    let first: &Notification = &store.get_for_employee("0001")[2];
    assert_eq!(first.notification_id, "notif_10");
}

fn msg(from: &str, to: &str, at: u128, content: &str) -> Message {
    Message {
        message_id: format!("msg_{}", at),
        from_emp_id: from.to_string(),
        to_emp_id: to.to_string(),
        content: content.to_string(),
        department: "HR".to_string(),
        is_read: false,
        created_at: at,
    }
}

#[test]
fn conversation_oldest_first_either_way() {
    let store = ChatStore::new(vec![
        msg("0001", "0002", 30, "third"),
        msg("0002", "0001", 10, "first"),
        msg("0001", "0003", 5, "other"),
        msg("0002", "0001", 30, "fourth"),
        msg("0001", "0002", 20, "second"),
    ]);
    let ab: Vec<String> = store.get_conversation("0001", "0002").into_iter().map(|m| m.content).collect();
    assert_eq!(ab, vec!["first", "second", "third", "fourth"]);
    let ba: Vec<String> = store.get_conversation("0002", "0001").into_iter().map(|m| m.content).collect();
    assert_eq!(ab, ba);
}

#[test]
fn chat_unread_and_marks() {
    let mut store = ChatStore::new(Vec::new());
    assert_eq!(ChatStore::generate_id(77), "msg_77");
    let m = store.send_message("0001".into(), "0002".into(), "hi".into(), "HR".into(), 77);
    assert_eq!(m.message_id, "msg_77");
    assert!(!m.is_read);
    store.send_message("0001".into(), "0002".into(), "again".into(), "HR".into(), 78);
    store.send_message("0003".into(), "0002".into(), "yo".into(), "HR".into(), 79);
    assert_eq!(store.get_unread_count("0002"), 3);
    assert_eq!(store.get_unread_from("0001", "0002"), 2);
    store.mark_conversation_read("0002", "0001");
    assert_eq!(store.get_unread_from("0001", "0002"), 0);
    assert_eq!(store.get_unread_count("0002"), 1);
}

#[test]
fn partners_sorted_without_repeats() {
    let store = ChatStore::new(vec![
        msg("0005", "0001", 1, "a"),
        msg("0001", "0003", 2, "b"),
        msg("0003", "0001", 3, "c"),
        msg("0002", "0004", 4, "d"),
        msg("0001", "0002", 5, "e"),
    ]);
    assert_eq!(store.get_conversation_partners("0001"), vec!["0002", "0003", "0005"]);
    assert!(store.get_conversation_partners("0009").is_empty());
}

#[test]
fn chat_unread_total_is_sum_over_partners() {
    let mut chat = ChatStore::new(Vec::new());
    chat.send_message("0008".into(), "0007".into(), "a".into(), "Engineering".into(), 1);
    chat.send_message("0008".into(), "0007".into(), "b".into(), "Engineering".into(), 2);
    chat.send_message("0001".into(), "0007".into(), "c".into(), "CEO".into(), 3);
    chat.send_message("0007".into(), "0009".into(), "d".into(), "Engineering".into(), 4);
    chat.send_message("0007".into(), "0007".into(), "e".into(), "Engineering".into(), 5);
    chat.mark_conversation_read("0007", "0001");
    let partners = chat.get_conversation_partners("0007");
    assert_eq!(partners, vec!["0001", "0007", "0008", "0009"]);
    let total = chat.get_unread_count("0007");
    assert_eq!(total, 3);
    let sum: usize = partners.iter().map(|p| chat.get_unread_from(p, "0007")).sum();
    assert_eq!(sum, total);
    for p in &partners {
        assert!(chat.get_unread_from(p, "0007") <= total);
    }
    assert_eq!(chat.get_unread_from("0008", "0007"), 2);
    assert_eq!(chat.get_unread_from("0001", "0007"), 0);
}
