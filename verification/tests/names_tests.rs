use workbindr::employees::Department;
use workbindr::notifications::NotificationType;
use workbindr::tasks::{Priority, TaskStatus};

#[test]
fn priority_names_round_trip() {
    for p in [Priority::Low, Priority::Medium, Priority::High, Priority::Urgent] {
        assert_eq!(Priority::from_str(p.to_str()), Some(p));
    }
    assert_eq!(Priority::from_str("low"), Some(Priority::Low));
    assert_eq!(Priority::from_str("URGENT"), Some(Priority::Urgent));
    assert_eq!(Priority::from_str("hIgH"), Some(Priority::High));
    assert_eq!(Priority::from_str("critical"), None);
    assert_eq!(Priority::from_str(""), None);
    assert_eq!(Priority::Medium.to_str(), "Medium");
    assert_eq!(Priority::Low.emoji(), "🟢");
    assert_eq!(Priority::Urgent.emoji(), "🚨");
}

#[test]
fn status_names_round_trip() {
    for s in [TaskStatus::Todo, TaskStatus::InProgress, TaskStatus::Done] {
        assert_eq!(TaskStatus::from_str(s.to_str()), Some(s));
    }
    assert_eq!(TaskStatus::from_str("in_progress"), Some(TaskStatus::InProgress));
    assert_eq!(TaskStatus::from_str("inprogress"), Some(TaskStatus::InProgress));
    assert_eq!(TaskStatus::from_str("done"), Some(TaskStatus::Done));
    assert_eq!(TaskStatus::from_str("in progress"), None);
    assert_eq!(TaskStatus::Done.emoji(), "✅");
    assert_eq!(TaskStatus::InProgress.to_str(), "InProgress");
}

#[test]
fn department_names_round_trip() {
    for d in [Department::HR, Department::Finance, Department::Legal, Department::Engineering, Department::CEO] {
        assert_eq!(Department::from_str(d.to_str()), Some(d));
    }
    assert_eq!(Department::from_str("finance"), Some(Department::Finance));
    assert_eq!(Department::from_str("hr"), Some(Department::HR));
    assert_eq!(Department::from_str("Marketing"), None);
    // Unicode case mapping: the ligature "ﬁ" upper-cases to "FI".
    assert_eq!(Department::from_str("\u{FB01}nance"), Some(Department::Finance));
    assert_eq!(Department::from_upper("LEGAL"), Some(Department::Legal));
    assert_eq!(Department::from_upper("Legal"), None);
}

#[test]
fn notification_type_names() {
    assert_eq!(NotificationType::TaskAssigned.to_str(), "TaskAssigned");
    assert_eq!(NotificationType::NewEmployee.to_str(), "NewEmployee");
    assert_eq!(NotificationType::DocumentAdded.emoji(), "📄");
    assert_eq!(NotificationType::TaskCompleted.emoji(), "✅");
}
