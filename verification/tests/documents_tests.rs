use workbindr::chat::ChatStore;
use workbindr::documents::{
    general_prompt, grounded_prompt, keyword_match, keyword_match_lowered, snippet, GroundingDoc, Mork,
};
use workbindr::employees::EmployeeRegistry;
use workbindr::events::{line_has_kind, log_entry, Event};
use workbindr::notifications::NotificationStore;
use workbindr::reports::{index, msg_to_response, notif_to_response, task_to_response};
use workbindr::service::AppState;
use workbindr::tasks::{Priority, Task, TaskStatus, TaskStore};

fn fresh() -> AppState {
    AppState {
        registry: EmployeeRegistry::new(Vec::new()),
        task_store: TaskStore::new(Vec::new()),
        notification_store: NotificationStore::new(Vec::new()),
        chat_store: ChatStore::new(Vec::new()),
    }
}

#[test]
fn log_lines() {
    let e = Event::UserInput { query_id: "id_1".into(), query_text: "hello".into() };
    assert_eq!(log_entry(&e, 12), "[12] EVENT: UserInput | query_id: id_1 | text: hello");
    let e = Event::QueryResponse { query_id: "id_1".into(), response_text: "hi".into() };
    assert_eq!(log_entry(&e, 13), "[13] EVENT: QueryResponse | query_id: id_1 | response: hi");
    let e = Event::DocumentAdded { doc_id: "id_2".into(), content: "c".into() };
    assert_eq!(log_entry(&e, 14), "[14] EVENT: DocumentAdded | doc_id: id_2 | content: c");
    let e = Event::Tombstone { doc_id: "id_2".into() };
    assert_eq!(log_entry(&e, 15), "[15] EVENT: Tombstone | doc_id: id_2 | status: DELETED");
}

#[test]
fn mork_remembers_its_file() {
    let m = Mork::new("events.log");
    assert_eq!(m.file_path(), "events.log");
}

#[test]
fn document_visibility() {
    let mut s = fresh();
    assert!(s.document_visible("0003", "Finance"));
    assert!(s.document_visible("0003", "FINANCE"));
    assert!(!s.document_visible("0003", "Legal"));
    assert!(s.document_visible("0000", "legal"));
    assert!(!s.document_visible("0000", "Marketing"));
    assert!(!s.document_visible("4242", "HR"));
    s.deactivate_employee("0000", "0003");
    assert!(!s.document_visible("0003", "Finance"));
}

#[test]
fn adding_a_document_notifies_colleagues() {
    let mut s = fresh();
    let r = s.add_document("0007", "Runbook", "Restart the server", 4000);
    assert!(r.accepted);
    assert_eq!(r.doc_id, "id_4000");
    assert_eq!(r.department, "Engineering");
    assert_eq!(r.message, "✅ 'Runbook' saved to Engineering department! doc_id: id_4000");
    assert_eq!(
        log_entry(&r.events[0], 1),
        "[1] EVENT: DocumentAdded | doc_id: id_4000 | content: TITLE: Runbook | DEPT: Engineering | BY: Arjun Nair | CONTENT: Restart the server"
    );
    let n = s.notification_store.get_for_employee("0008");
    assert_eq!(n.len(), 1);
    assert_eq!(n[0].title, "New document in Engineering");
    assert_eq!(n[0].message, "Arjun Nair added a new document: 'Runbook'");
    assert_eq!(n[0].related_id, "id_4000");
    assert!(s.notification_store.get_for_employee("0007").is_empty());
    let r = s.add_document("555", "x", "y", 1);
    assert!(!r.accepted);
    assert_eq!(r.doc_id, "none");
    assert_eq!(r.message, "❌ Employee '555' not found.");
}

#[test]
fn deleting_and_querying() {
    let s = fresh();
    let r = s.delete_document("0001", "id_9");
    assert_eq!(r.message, "✅ Document id_9 deleted. History in MORK forever.");
    assert_eq!(log_entry(&r.events[0], 2), "[2] EVENT: Tombstone | doc_id: id_9 | status: DELETED");
    let r = s.delete_document("x", "id_9");
    assert_eq!(r.message, "❌ Employee 'x' not found.");
    assert!(r.events.is_empty());
    let q = s.begin_query("0004", "What is our budget?", 77);
    assert_eq!(q.query_id, "id_77");
    let emp = q.employee.unwrap();
    match &q.events[0] {
        Event::UserInput { query_text, .. } => assert_eq!(query_text, "[EMP:0004|DEPT:Finance] What is our budget?"),
        _ => panic!("wrong event"),
    }
    assert_eq!(
        general_prompt(&emp, "Why?"),
        "You are WorkBindr AI. Answer this from Amit Kumar in Finance dept: Why?"
    );
    assert_eq!(
        grounded_prompt(&emp, "Budget", "Numbers", "Why?"),
        "You are WorkBindr AI assistant.\nEmployee: Amit Kumar (Finance)\nDocument: Budget\nContent: Numbers\nQuestion: Why?\nAnswer based on the document."
    );
    assert_eq!((q.emp_id.as_str(), q.department.as_str(), q.message.as_str()), ("0004", "Finance", ""));
    let q = s.begin_query("zz", "hi", 78);
    assert!(q.employee.is_none());
    assert_eq!(q.message, "❌ Employee ID 'zz' not found.");
    assert_eq!((q.emp_id.as_str(), q.department.as_str()), ("zz", "Unknown"));
    assert!(q.events.is_empty());
}

#[test]
fn only_visible_documents_ground_answers() {
    let s = fresh();
    let depts = vec!["HR".to_string(), "Finance".to_string(), "finance".to_string(), "Marketing".to_string(), "Legal".to_string()];
    assert_eq!(s.visible_documents("0004", &depts), vec![1, 2]);
    assert_eq!(s.visible_documents("0000", &depts), vec![0, 1, 2, 4]);
    assert!(s.visible_documents("nobody", &depts).is_empty());
    let emp = s.begin_query("0004", "Why?", 1).employee.unwrap();
    let own = GroundingDoc { department: "Finance".into(), title: "Budget".into(), content: "Numbers".into() };
    assert_eq!(s.query_prompt(&emp, "Why?", Some(&own)), grounded_prompt(&emp, "Budget", "Numbers", "Why?"));
    let other = GroundingDoc { department: "Legal".into(), title: "Contract".into(), content: "Secret".into() };
    assert_eq!(s.query_prompt(&emp, "Why?", Some(&other)), general_prompt(&emp, "Why?"));
    assert_eq!(s.query_prompt(&emp, "Why?", None), general_prompt(&emp, "Why?"));
}

#[test]
fn snippets_keep_200_characters() {
    assert_eq!(snippet("short"), "short");
    let long = "a".repeat(250);
    assert_eq!(snippet(&long), format!("{}...", "a".repeat(200)));
    let exact = "b".repeat(200);
    assert_eq!(snippet(&exact), exact);
    let wide = "é".repeat(150);
    assert_eq!(snippet(&wide), wide);
    let wider = "é".repeat(201);
    assert_eq!(snippet(&wider), format!("{}...", "é".repeat(200)));
    let mixed = format!("{}{}", "a".repeat(199), "ü".repeat(5));
    assert_eq!(snippet(&mixed), format!("{}ü...", "a".repeat(199)));
}

#[test]
fn shown_forms() {
    let t = Task {
        task_id: "task_1".into(),
        title: "T".into(),
        description: "D".into(),
        priority: Priority::Urgent,
        status: TaskStatus::InProgress,
        created_by: "0001".into(),
        assigned_to: "0002".into(),
        department: "HR".into(),
        created_at: 3,
        updated_at: 4,
    };
    let r = task_to_response(&t);
    assert_eq!(r.priority, "Urgent");
    assert_eq!(r.priority_emoji, "🚨");
    assert_eq!(r.status, "InProgress");
    assert_eq!(r.status_emoji, "⚙️");
    assert_eq!(r.updated_at, 4);
    let mut s = fresh();
    s.send_message("0001", "0002", "hey", 8);
    let n = &s.notification_store.get_for_employee("0002")[0];
    let nr = notif_to_response(n);
    assert_eq!(nr.notification_type, "TaskAssigned");
    assert_eq!(nr.emoji, "📋");
    let m = &s.chat_store.get_conversation("0001", "0002")[0];
    let mr = msg_to_response(m);
    assert_eq!(mr.content, "hey");
    assert_eq!(mr.message_id, "msg_8");
    assert!(index().starts_with("WorkBindr Enterprise API"));
}

#[test]
fn keyword_search_ignores_case() {
    assert!(keyword_match("Budget", "Q3 budget report", "numbers"));
    assert!(keyword_match("LEAVE", "Policy", "Annual leave rules"));
    assert!(!keyword_match("salary", "Policy", "Annual leave rules"));
    assert!(keyword_match("", "Policy", "x"));
    assert!(keyword_match("ÉTÉ", "Plans", "l'été prochain"));
    assert!(keyword_match_lowered("leave", "policy", "annual leave"));
    assert!(!keyword_match_lowered("Leave", "policy", "annual leave"));
}

#[test]
fn log_lines_by_kind() {
    let e = Event::EmployeeAdded { emp_id: "0100".into(), name: "Nia".into(), department: "Legal".into() };
    let line = log_entry(&e, 9);
    assert_eq!(line, "[9] EVENT: EmployeeAdded | emp_id: 0100 | name: Nia | department: Legal");
    assert!(line_has_kind(&line, "EmployeeAdded"));
    assert!(!line_has_kind(&line, "UserInput"));
    assert!(line_has_kind("[12] EVENT: UserInput | query_id: q | text: t", "UserInput"));
    assert!(line_has_kind("[] EVENT: MessageSent | x", "MessageSent"));
    assert!(!line_has_kind("[1a] EVENT: UserInput | x", "UserInput"));
    assert!(!line_has_kind("x[1] EVENT: UserInput | x", "UserInput"));
    assert!(!line_has_kind("[1] EVENT: UserInputs | x", "UserInput"));
}
