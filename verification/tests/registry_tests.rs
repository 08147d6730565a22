use workbindr::employees::{Department, Employee, EmployeeRegistry};

fn emp(id: &str, name: &str, d: Department, active: bool) -> Employee {
    Employee {
        emp_id: id.to_string(),
        name: name.to_string(),
        department: d,
        role: "Staff".to_string(),
        is_active: active,
        created_at: 5,
    }
}

#[test]
fn founding_roster() {
    let reg = EmployeeRegistry::new(Vec::new());
    assert_eq!(reg.count(), 9);
    let ceo = reg.get_employee("0000").unwrap();
    assert_eq!(ceo.name, "Aakanksha");
    assert_eq!(ceo.department, Department::CEO);
    assert_eq!(ceo.role, "CEO & Founder");
    assert!(ceo.is_active);
    assert_eq!(ceo.created_at, 0);
    assert_eq!(reg.get_employee("0008").unwrap().name, "Divya Reddy");
    assert!(reg.get_employee("0009").is_none());
}

#[test]
fn saved_records_never_replace_founders() {
    let saved = vec![
        emp("0001", "Impostor", Department::Legal, true),
        emp("0100", "New Hire", Department::Legal, true),
        emp("0100", "Second Copy", Department::HR, true),
    ];
    let reg = EmployeeRegistry::new(saved);
    assert_eq!(reg.count(), 10);
    assert_eq!(reg.get_employee("0001").unwrap().name, "Priya Sharma");
    assert_eq!(reg.get_employee("0100").unwrap().name, "New Hire");
}

#[test]
fn add_then_get() {
    let mut reg = EmployeeRegistry::new(Vec::new());
    assert!(reg
        .add_employee("0042".to_string(), "Ravi".to_string(), Department::Engineering, "Intern".to_string(), 99)
        .is_ok());
    let e = reg.get_employee("0042").unwrap();
    assert_eq!(e.name, "Ravi");
    assert_eq!(e.department, Department::Engineering);
    assert_eq!(e.role, "Intern");
    assert!(e.is_active);
    assert_eq!(e.created_at, 99);
    assert_eq!(reg.count(), 10);
}

#[test]
fn add_existing_id_is_refused() {
    let mut reg = EmployeeRegistry::new(Vec::new());
    let r = reg.add_employee("0003".to_string(), "X".to_string(), Department::HR, "Y".to_string(), 1);
    assert_eq!(r, Err("Employee ID '0003' already exists".to_string()));
    assert_eq!(reg.count(), 9);
    assert_eq!(reg.get_employee("0003").unwrap().name, "Sneha Patil");
}

#[test]
fn deactivation_is_soft_and_revokes_access() {
    let mut reg = EmployeeRegistry::new(Vec::new());
    assert!(reg.can_access("0005", &Department::Legal));
    assert_eq!(reg.deactivate_employee("0005"), Ok(()));
    let e = reg.get_employee("0005").unwrap();
    assert!(!e.is_active);
    assert_eq!(reg.count(), 9);
    assert!(!reg.can_access("0005", &Department::Legal));
    assert_eq!(reg.deactivate_employee("7777"), Err("Employee '7777' not found".to_string()));
}

#[test]
fn access_rules() {
    let reg = EmployeeRegistry::new(Vec::new());
    assert!(reg.can_access("0001", &Department::HR));
    assert!(!reg.can_access("0001", &Department::Finance));
    for d in [Department::HR, Department::Finance, Department::Legal, Department::Engineering, Department::CEO] {
        assert!(reg.can_access("0000", &d));
    }
    assert!(!reg.can_access("9999", &Department::HR));
}

#[test]
fn all_employees_sorted_by_id() {
    let saved = vec![emp("0050", "B", Department::HR, true), emp("00045", "A", Department::HR, true)];
    let reg = EmployeeRegistry::new(saved);
    let ids: Vec<String> = reg.get_all_employees().into_iter().map(|e| e.emp_id).collect();
    let mut expected = ids.clone();
    expected.sort();
    assert_eq!(ids, expected);
    assert_eq!(ids.len(), 11);
    assert_eq!(ids[0], "0000");
    assert_eq!(ids[5], "00045");
}

#[test]
fn department_members_are_active_ones() {
    let mut reg = EmployeeRegistry::new(Vec::new());
    reg.deactivate_employee("0002").unwrap();
    let hr: Vec<String> = reg.get_by_department("HR").into_iter().map(|e| e.emp_id).collect();
    assert_eq!(hr, vec!["0001".to_string()]);
    let eng: Vec<String> = reg.get_by_department("Engineering").into_iter().map(|e| e.emp_id).collect();
    assert_eq!(eng, vec!["0007".to_string(), "0008".to_string()]);
    assert!(reg.get_by_department("engineering").is_empty());
    assert_eq!(reg.count_in_department(Department::HR), 2);
}
