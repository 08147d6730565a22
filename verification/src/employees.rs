//! The employee registry: who works here, in which department, and who may
//! read which department's documents.

use vstd::prelude::*;
use vstd::string::*;

use crate::text::{
    all_ascii, ascii_upper, lemma_lex_asymmetric, lemma_lex_irreflexive, lemma_lex_total, lemma_lex_transitive, lex_lt, text_eq, text_lt,
    to_uppercase, unicode_upper,
};

verus! {

/// A department of the company.
#[derive(Clone, Copy, Debug, PartialEq, Eq, Structural)]
pub enum Department {
    HR,
    Finance,
    Legal,
    Engineering,
    CEO,
}

impl Department {
    /// The display name of a department.
    pub open spec fn name(self) -> Seq<char> {
        match self {
            Department::HR => "HR"@,
            Department::Finance => "Finance"@,
            Department::Legal => "Legal"@,
            Department::Engineering => "Engineering"@,
            Department::CEO => "CEO"@,
        }
    }

    /// The department that an upper-cased name denotes, if any.
    pub open spec fn parse_upper(u: Seq<char>) -> Option<Department> {
        if u == "HR"@ {
            Some(Department::HR)
        } else if u == "FINANCE"@ {
            Some(Department::Finance)
        } else if u == "LEGAL"@ {
            Some(Department::Legal)
        } else if u == "ENGINEERING"@ {
            Some(Department::Engineering)
        } else if u == "CEO"@ {
            Some(Department::CEO)
        } else {
            None
        }
    }

    /// The department named by an already upper-cased string.
    pub fn from_upper(u: &str) -> (r: Option<Department>)
        ensures
            r == Department::parse_upper(u@),
    {
        if text_eq(u, "HR") {
            Some(Department::HR)
        } else if text_eq(u, "FINANCE") {
            Some(Department::Finance)
        } else if text_eq(u, "LEGAL") {
            Some(Department::Legal)
        } else if text_eq(u, "ENGINEERING") {
            Some(Department::Engineering)
        } else if text_eq(u, "CEO") {
            Some(Department::CEO)
        } else {
            None
        }
    }

    /// Parses a department name, ignoring case.
    pub fn from_str(s: &str) -> (r: Option<Department>)
        ensures
            r == Department::parse_upper(unicode_upper(s@)),
            all_ascii(s@) ==> r == Department::parse_upper(ascii_upper(s@)),
    {
        let up = to_uppercase(s);
        Department::from_upper(up.as_str())
    }

    /// The display name of this department.
    pub fn to_str(&self) -> (r: &'static str)
        ensures
            r@ == self.name(),
    {
        match self {
            Department::HR => "HR",
            Department::Finance => "Finance",
            Department::Legal => "Legal",
            Department::Engineering => "Engineering",
            Department::CEO => "CEO",
        }
    }
}

/// A department's name, upper-cased, parses back to that department.
pub proof fn lemma_department_name_round_trip(d: Department)
    ensures
        all_ascii(d.name()),
        Department::parse_upper(ascii_upper(d.name())) == Some(d),
{
    reveal_strlit("HR");
    reveal_strlit("Finance");
    reveal_strlit("Legal");
    reveal_strlit("Engineering");
    reveal_strlit("CEO");
    reveal_strlit("FINANCE");
    reveal_strlit("LEGAL");
    reveal_strlit("ENGINEERING");
    match d {
        Department::HR => {
            assert(ascii_upper(d.name()) =~= "HR"@);
        },
        Department::Finance => {
            assert(ascii_upper(d.name()) =~= "FINANCE"@);
        },
        Department::Legal => {
            assert(ascii_upper(d.name()) =~= "LEGAL"@);
        },
        Department::Engineering => {
            assert(ascii_upper(d.name()) =~= "ENGINEERING"@);
        },
        Department::CEO => {
            assert(ascii_upper(d.name()) =~= "CEO"@);
        },
    }
}


/// One employee record.
#[derive(Clone, Debug)]
pub struct Employee {
    pub emp_id: String,
    pub name: String,
    pub department: Department,
    pub role: String,
    /// Cleared when the CEO deactivates the employee.
    pub is_active: bool,
    /// When the employee was added (0 for the founding roster).
    pub created_at: u128,
}

/// The mathematical model of an employee record.
pub struct EmployeeView {
    pub emp_id: Seq<char>,
    pub name: Seq<char>,
    pub department: Department,
    pub role: Seq<char>,
    pub is_active: bool,
    pub created_at: u128,
}

impl View for Employee {
    type V = EmployeeView;

    open spec fn view(&self) -> EmployeeView {
        EmployeeView {
            emp_id: self.emp_id@,
            name: self.name@,
            department: self.department,
            role: self.role@,
            is_active: self.is_active,
            created_at: self.created_at,
        }
    }
}

/// The models of a sequence of employee records.
pub open spec fn employee_views(s: Seq<Employee>) -> Seq<EmployeeView> {
    s.map_values(|e: Employee| e@)
}

impl Employee {
    /// A copy of this record.
    pub fn duplicate(&self) -> (r: Employee)
        ensures
            r@ == self@,
    {
        Employee {
            emp_id: self.emp_id.clone(),
            name: self.name.clone(),
            department: self.department,
            role: self.role.clone(),
            is_active: self.is_active,
            created_at: self.created_at,
        }
    }
}


/// No two records share an employee id.
pub open spec fn unique_ids(s: Seq<EmployeeView>) -> bool {
    forall|i: int, j: int|
        0 <= i < s.len() && 0 <= j < s.len() && i != j ==> #[trigger] s[i].emp_id != #[trigger] s[j].emp_id
}

/// Some record carries the given id.
pub open spec fn has_id(s: Seq<EmployeeView>, id: Seq<char>) -> bool {
    exists|i: int| 0 <= i < s.len() && #[trigger] s[i].emp_id == id
}

/// The record with the given id, if any.
pub open spec fn lookup(s: Seq<EmployeeView>, id: Seq<char>) -> Option<EmployeeView> {
    if has_id(s, id) {
        Some(s[choose|i: int| 0 <= i < s.len() && #[trigger] s[i].emp_id == id])
    } else {
        None
    }
}

/// In a sequence with unique ids, the record found at an index with the id is the one looked up.
pub proof fn lemma_lookup_at(s: Seq<EmployeeView>, id: Seq<char>, k: int)
    requires
        unique_ids(s),
        0 <= k < s.len(),
        s[k].emp_id == id,
    ensures
        lookup(s, id) == Some(s[k]),
{
    assert(has_id(s, id));
    let c = choose|i: int| 0 <= i < s.len() && #[trigger] s[i].emp_id == id;
    assert(s[c].emp_id == id);
    assert(c == k);
}

/// Whether the employee `id` may read documents of department `dept`: an
/// active employee reads their own department's documents, and an active
/// CEO reads every department's.
pub open spec fn may_access(s: Seq<EmployeeView>, id: Seq<char>, dept: Department) -> bool {
    match lookup(s, id) {
        None => false,
        Some(e) => e.is_active && (e.department == Department::CEO || e.department == dept),
    }
}

/// The models of an optional record.
pub open spec fn opt_employee_view(r: Option<Employee>) -> Option<EmployeeView> {
    match r {
        Some(e) => Some(e@),
        None => None,
    }
}

/// A founding roster entry.
pub open spec fn founder(id: &str, name: &str, d: Department, role: &str) -> EmployeeView {
    EmployeeView { emp_id: id@, name: name@, department: d, role: role@, is_active: true, created_at: 0 }
}

/// The employees that every registry starts with.
pub open spec fn default_roster() -> Seq<EmployeeView> {
    seq![
        founder("0000", "Aakanksha", Department::CEO, "CEO & Founder"),
        founder("0001", "Priya Sharma", Department::HR, "HR Manager"),
        founder("0002", "Rahul Verma", Department::HR, "HR Assistant"),
        founder("0003", "Sneha Patil", Department::Finance, "Finance Manager"),
        founder("0004", "Amit Kumar", Department::Finance, "Finance Assistant"),
        founder("0005", "Vikram Mehta", Department::Legal, "Legal Manager"),
        founder("0006", "Pooja Singh", Department::Legal, "Legal Assistant"),
        founder("0007", "Arjun Nair", Department::Engineering, "Lead Engineer"),
        founder("0008", "Divya Reddy", Department::Engineering, "Backend Engineer"),
    ]
}

/// Adds saved records to a roster, in order, skipping any whose id is already present.
pub open spec fn merge_saved(acc: Seq<EmployeeView>, saved: Seq<EmployeeView>) -> Seq<EmployeeView>
    decreases saved.len(),
{
    if saved.len() == 0 {
        acc
    } else {
        let next = if has_id(acc, saved[0].emp_id) { acc } else { acc.push(saved[0]) };
        merge_saved(next, saved.drop_first())
    }
}

/// The records after the employee with the given id is marked inactive.
pub open spec fn deactivated(s: Seq<EmployeeView>, id: Seq<char>) -> Seq<EmployeeView> {
    Seq::new(s.len(), |k: int| if s[k].emp_id == id { EmployeeView { is_active: false, ..s[k] } } else { s[k] })
}

/// Adding a record with a new id keeps ids unique, makes that id find the
/// new record, and changes what no other id finds.
pub proof fn lemma_add_then_lookup(s: Seq<EmployeeView>, e: EmployeeView, id: Seq<char>)
    requires
        unique_ids(s),
        !has_id(s, e.emp_id),
    ensures
        unique_ids(s.push(e)),
        lookup(s.push(e), e.emp_id) == Some(e),
        id != e.emp_id ==> lookup(s.push(e), id) == lookup(s, id),
{
    let n = s.push(e);
    assert forall|i: int, j: int| 0 <= i < n.len() && 0 <= j < n.len() && i != j implies #[trigger] n[i].emp_id
        != #[trigger] n[j].emp_id by {
        if i < s.len() && j < s.len() {
            assert(n[i] == s[i] && n[j] == s[j]);
        } else if i < s.len() {
            assert(n[i] == s[i]);
        } else if j < s.len() {
            assert(n[j] == s[j]);
        }
    }
    lemma_lookup_at(n, e.emp_id, s.len() as int);
    if id != e.emp_id {
        if has_id(s, id) {
            let k = choose|k: int| 0 <= k < s.len() && #[trigger] s[k].emp_id == id;
            lemma_lookup_at(s, id, k);
            lemma_lookup_at(n, id, k);
        } else {
            assert forall|k: int| 0 <= k < n.len() implies #[trigger] n[k].emp_id != id by {
                if k < s.len() {
                    assert(n[k] == s[k]);
                }
            }
        }
    }
}

/// Deactivation keeps the employee on record, inactive, and takes away their
/// access to every department's documents; ids stay unique.
pub proof fn lemma_deactivation_revokes_access(s: Seq<EmployeeView>, id: Seq<char>, d: Department)
    requires
        unique_ids(s),
    ensures
        unique_ids(deactivated(s, id)),
        deactivated(s, id).len() == s.len(),
        !may_access(deactivated(s, id), id, d),
        has_id(s, id) ==> lookup(deactivated(s, id), id) == Some(EmployeeView { is_active: false, ..lookup(s, id)->0 }),
        !has_id(s, id) ==> deactivated(s, id) == s,
{
    let n = deactivated(s, id);
    assert forall|i: int, j: int| 0 <= i < n.len() && 0 <= j < n.len() && i != j implies #[trigger] n[i].emp_id
        != #[trigger] n[j].emp_id by {
        assert(s[i].emp_id != s[j].emp_id);
    }
    if has_id(s, id) {
        let k = choose|k: int| 0 <= k < s.len() && #[trigger] s[k].emp_id == id;
        lemma_lookup_at(s, id, k);
        lemma_lookup_at(n, id, k);
    } else {
        assert forall|k: int| 0 <= k < n.len() implies #[trigger] n[k].emp_id != id by {}
        assert(n =~= s);
    }
}

/// An active CEO may read every department's documents.
pub proof fn lemma_ceo_reads_everything(s: Seq<EmployeeView>, id: Seq<char>, d: Department)
    requires
        lookup(s, id) matches Some(e) && e.is_active && e.department == Department::CEO,
    ensures
        may_access(s, id, d),
{
}

/// An unknown or inactive employee may read no department's documents.
pub proof fn lemma_inactive_reads_nothing(s: Seq<EmployeeView>, id: Seq<char>, d: Department)
    requires
        !(lookup(s, id) matches Some(e) && e.is_active),
    ensures
        !may_access(s, id, d),
{
}

/// Merging saved records never replaces a record whose id is already present.
pub proof fn lemma_merge_keeps_present(acc: Seq<EmployeeView>, saved: Seq<EmployeeView>, id: Seq<char>)
    requires
        unique_ids(acc),
        has_id(acc, id),
    ensures
        lookup(merge_saved(acc, saved), id) == lookup(acc, id),
        unique_ids(merge_saved(acc, saved)),
    decreases saved.len(),
{
    if saved.len() > 0 {
        let next = if has_id(acc, saved[0].emp_id) { acc } else { acc.push(saved[0]) };
        if !has_id(acc, saved[0].emp_id) {
            lemma_add_then_lookup(acc, saved[0], id);
            let k = choose|k: int| 0 <= k < acc.len() && #[trigger] acc[k].emp_id == id;
            assert(next[k].emp_id == id);
            assert(has_id(next, id));
        }
        lemma_merge_keeps_present(next, saved.drop_first(), id);
    }
}

/// Every founding employee keeps their record whatever was saved: a saved
/// record never overwrites one of the founding roster.
pub proof fn lemma_founders_kept(saved: Seq<EmployeeView>, k: int)
    requires
        0 <= k < default_roster().len(),
    ensures
        lookup(merge_saved(default_roster(), saved), default_roster()[k].emp_id) == Some(default_roster()[k]),
{
    lemma_default_roster_unique();
    let id = default_roster()[k].emp_id;
    lemma_lookup_at(default_roster(), id, k);
    lemma_merge_keeps_present(default_roster(), saved, id);
}

/// Merging saved records adds every saved record whose id is new: the first
/// saved record with an id that is not yet present is what that id finds
/// afterwards, whatever its fields (an inactive record included).
pub proof fn lemma_merge_adds_new(acc: Seq<EmployeeView>, saved: Seq<EmployeeView>, k: int)
    requires
        unique_ids(acc),
        0 <= k < saved.len(),
        !has_id(acc, saved[k].emp_id),
        forall|j: int| 0 <= j < k ==> #[trigger] saved[j].emp_id != saved[k].emp_id,
    ensures
        lookup(merge_saved(acc, saved), saved[k].emp_id) == Some(saved[k]),
    decreases saved.len(),
{
    let id = saved[k].emp_id;
    let rest = saved.drop_first();
    if k == 0 {
        let next = acc.push(saved[0]);
        lemma_add_then_lookup(acc, saved[0], id);
        assert(has_id(next, id)) by {
            assert(next[acc.len() as int].emp_id == id);
        }
        lemma_merge_keeps_present(next, rest, id);
    } else {
        assert(saved[0].emp_id != id);
        let next = if has_id(acc, saved[0].emp_id) { acc } else { acc.push(saved[0]) };
        if !has_id(acc, saved[0].emp_id) {
            lemma_add_then_lookup(acc, saved[0], id);
            assert(!has_id(next, id)) by {
                if has_id(next, id) {
                    let m = choose|m: int| 0 <= m < next.len() && #[trigger] next[m].emp_id == id;
                    if m < acc.len() {
                        assert(acc[m].emp_id == id);
                    }
                }
            }
        }
        assert forall|j: int| 0 <= j < k - 1 implies #[trigger] rest[j].emp_id != rest[k - 1].emp_id by {
            assert(rest[j] == saved[j + 1]);
        }
        assert(rest[k - 1] == saved[k]);
        lemma_merge_adds_new(next, rest, k - 1);
    }
}

/// Reloading the registry keeps every saved employee whose id is not a
/// founder's, active or not: the first saved record with such an id is what
/// that id finds.
pub proof fn lemma_reload_keeps_saved(saved: Seq<EmployeeView>, k: int)
    requires
        0 <= k < saved.len(),
        !has_id(default_roster(), saved[k].emp_id),
        forall|j: int| 0 <= j < k ==> #[trigger] saved[j].emp_id != saved[k].emp_id,
    ensures
        lookup(merge_saved(default_roster(), saved), saved[k].emp_id) == Some(saved[k]),
{
    lemma_default_roster_unique();
    lemma_merge_adds_new(default_roster(), saved, k);
}

/// Records in strictly increasing order of employee id.
pub open spec fn sorted_by_id(s: Seq<EmployeeView>) -> bool {
    forall|i: int, j: int| 0 <= i < j < s.len() ==> lex_lt(#[trigger] s[i].emp_id, #[trigger] s[j].emp_id)
}

/// The records of `reg` in increasing id order (with unique ids this order is unique).
pub open spec fn roster_by_id(reg: Seq<EmployeeView>) -> Seq<EmployeeView> {
    choose|s: Seq<EmployeeView>|
        sorted_by_id(s) && s.len() == reg.len() && forall|x: EmployeeView| s.contains(x) <==> reg.contains(x)
}

/// Two id-sorted sequences with the same records are equal.
pub proof fn lemma_sorted_by_id_unique(a: Seq<EmployeeView>, b: Seq<EmployeeView>)
    requires
        sorted_by_id(a),
        sorted_by_id(b),
        forall|x: EmployeeView| a.contains(x) <==> b.contains(x),
    ensures
        a == b,
    decreases a.len(),
{
    if a.len() == 0 {
        if b.len() > 0 {
            assert(b.contains(b[0]));
        }
        assert(a =~= b);
    } else if b.len() == 0 {
        assert(a.contains(a[0]));
    } else {
        assert(a.contains(a[0]));
        assert(b.contains(b[0]));
        let i = choose|i: int| 0 <= i < b.len() && b[i] == a[0];
        let j = choose|j: int| 0 <= j < a.len() && a[j] == b[0];
        if i > 0 {
            assert(lex_lt(b[0].emp_id, b[i].emp_id));
            if j > 0 {
                assert(lex_lt(a[0].emp_id, a[j].emp_id));
                lemma_lex_asymmetric(a[0].emp_id, b[0].emp_id);
            } else {
                lemma_lex_irreflexive(a[0].emp_id);
            }
        } else if j > 0 {
            assert(lex_lt(a[0].emp_id, a[j].emp_id));
            lemma_lex_irreflexive(a[0].emp_id);
        }
        assert(a[0] == b[0]);
        let a1 = a.drop_first();
        let b1 = b.drop_first();
        assert forall|x: EmployeeView| a1.contains(x) <==> b1.contains(x) by {
            if a1.contains(x) {
                let k = choose|k: int| 0 <= k < a1.len() && a1[k] == x;
                assert(a[k + 1] == x);
                assert(lex_lt(a[0].emp_id, x.emp_id));
                lemma_lex_irreflexive(x.emp_id);
                assert(b.contains(x));
                let m = choose|m: int| 0 <= m < b.len() && b[m] == x;
                assert(m != 0);
                assert(b1[m - 1] == x);
            }
            if b1.contains(x) {
                let k = choose|k: int| 0 <= k < b1.len() && b1[k] == x;
                assert(b[k + 1] == x);
                assert(lex_lt(b[0].emp_id, x.emp_id));
                lemma_lex_irreflexive(x.emp_id);
                assert(a.contains(x));
                let m = choose|m: int| 0 <= m < a.len() && a[m] == x;
                assert(m != 0);
                assert(a1[m - 1] == x);
            }
        }
        lemma_sorted_by_id_unique(a1, b1);
        assert(a =~= seq![a[0]] + a1);
        assert(b =~= seq![b[0]] + b1);
    }
}

/// The registry of all employees, keyed by employee id.
pub struct EmployeeRegistry {
    employees: Vec<Employee>,
}

impl View for EmployeeRegistry {
    type V = Seq<EmployeeView>;

    closed spec fn view(&self) -> Seq<EmployeeView> {
        employee_views(self.employees@)
    }
}

fn founding_member(id: &str, name: &str, d: Department, role: &str) -> (r: Employee)
    ensures
        r@ == founder(id, name, d, role),
{
    Employee {
        emp_id: id.to_owned(),
        name: name.to_owned(),
        department: d,
        role: role.to_owned(),
        is_active: true,
        created_at: 0,
    }
}

proof fn lemma_default_roster_unique()
    ensures
        unique_ids(default_roster()),
{
    reveal_strlit("0000");
    reveal_strlit("0001");
    reveal_strlit("0002");
    reveal_strlit("0003");
    reveal_strlit("0004");
    reveal_strlit("0005");
    reveal_strlit("0006");
    reveal_strlit("0007");
    reveal_strlit("0008");
    let s = default_roster();
    assert forall|i: int, j: int| 0 <= i < s.len() && 0 <= j < s.len() && i != j implies
        #[trigger] s[i].emp_id != #[trigger] s[j].emp_id by {
        assert(s[i].emp_id[3] != s[j].emp_id[3]);
    }
}

impl EmployeeRegistry {
    /// The registry is well formed: employee ids are unique.
    pub open spec fn wf(&self) -> bool {
        unique_ids(self@)
    }

    /// The founding roster, merged with previously saved employees: a saved
    /// record whose id is already present is skipped.
    pub fn new(saved: Vec<Employee>) -> (r: EmployeeRegistry)
        ensures
            r.wf(),
            r@ == merge_saved(default_roster(), employee_views(saved@)),
    {
        let mut employees: Vec<Employee> = Vec::new();
        employees.push(founding_member("0000", "Aakanksha", Department::CEO, "CEO & Founder"));
        employees.push(founding_member("0001", "Priya Sharma", Department::HR, "HR Manager"));
        employees.push(founding_member("0002", "Rahul Verma", Department::HR, "HR Assistant"));
        employees.push(founding_member("0003", "Sneha Patil", Department::Finance, "Finance Manager"));
        employees.push(founding_member("0004", "Amit Kumar", Department::Finance, "Finance Assistant"));
        employees.push(founding_member("0005", "Vikram Mehta", Department::Legal, "Legal Manager"));
        employees.push(founding_member("0006", "Pooja Singh", Department::Legal, "Legal Assistant"));
        employees.push(founding_member("0007", "Arjun Nair", Department::Engineering, "Lead Engineer"));
        employees.push(founding_member("0008", "Divya Reddy", Department::Engineering, "Backend Engineer"));
        let mut reg = EmployeeRegistry { employees };
        assert(reg@ =~= default_roster());
        proof {
            lemma_default_roster_unique();
        }
        let ghost target = merge_saved(default_roster(), employee_views(saved@));
        let mut i: usize = 0;
        assert(employee_views(saved@).skip(0) =~= employee_views(saved@));
        while i < saved.len()
            invariant
                i <= saved.len(),
                reg.wf(),
                merge_saved(reg@, employee_views(saved@).skip(i as int)) == target,
            decreases saved.len() - i,
        {
            let ghost rest = employee_views(saved@).skip(i as int);
            assert(rest[0] == saved@[i as int]@);
            assert(rest.drop_first() =~= employee_views(saved@).skip(i + 1));
            let e = &saved[i];
            match reg.index_of(e.emp_id.as_str()) {
                Some(_) => {},
                None => {
                    let ghost before = reg@;
                    reg.employees.push(e.duplicate());
                    assert(reg@ =~= before.push(e@));
                },
            }
            i = i + 1;
        }
        assert(employee_views(saved@).skip(i as int) =~= Seq::<EmployeeView>::empty());
        reg
    }

    /// The index of the record with the given id, if any.
    fn index_of(&self, id: &str) -> (r: Option<usize>)
        ensures
            match r {
                Some(i) => i < self@.len() && self@[i as int].emp_id == id@,
                None => !has_id(self@, id@),
            },
    {
        let mut i: usize = 0;
        while i < self.employees.len()
            invariant
                i <= self.employees.len(),
                forall|k: int| 0 <= k < i ==> #[trigger] self@[k].emp_id != id@,
            decreases self.employees.len() - i,
        {
            if text_eq(self.employees[i].emp_id.as_str(), id) {
                return Some(i);
            }
            i = i + 1;
        }
        None
    }

    /// The employee with the given id, if any.
    pub fn get_employee(&self, emp_id: &str) -> (r: Option<Employee>)
        requires
            self.wf(),
        ensures
            opt_employee_view(r) == lookup(self@, emp_id@),
    {
        match self.index_of(emp_id) {
            Some(i) => {
                proof {
                    lemma_lookup_at(self@, emp_id@, i as int);
                }
                Some(self.employees[i].duplicate())
            },
            None => None,
        }
    }

    /// Whether the employee may read documents of the given department.
    pub fn can_access(&self, emp_id: &str, doc_department: &Department) -> (r: bool)
        requires
            self.wf(),
        ensures
            r == may_access(self@, emp_id@, *doc_department),
    {
        match self.get_employee(emp_id) {
            None => false,
            Some(emp) => {
                if !emp.is_active {
                    return false;
                }
                if emp.department == Department::CEO {
                    return true;
                }
                emp.department == *doc_department
            },
        }
    }

    /// Adds a new active employee. Fails, changing nothing, when the id is taken.
    pub fn add_employee(
        &mut self,
        emp_id: String,
        name: String,
        department: Department,
        role: String,
        timestamp: u128,
    ) -> (r: Result<(), String>)
        requires
            old(self).wf(),
        ensures
            final(self).wf(),
            has_id(old(self)@, emp_id@) ==> {
                &&& final(self)@ == old(self)@
                &&& r matches Err(m) && m@ == "Employee ID '"@ + emp_id@ + "' already exists"@
            },
            !has_id(old(self)@, emp_id@) ==> {
                &&& r is Ok
                &&& final(self)@ == old(self)@.push(
                    EmployeeView {
                        emp_id: emp_id@,
                        name: name@,
                        department,
                        role: role@,
                        is_active: true,
                        created_at: timestamp,
                    },
                )
            },
    {
        if let Some(_) = self.index_of(emp_id.as_str()) {
            let m = "Employee ID '".to_owned().concat(emp_id.as_str()).concat("' already exists");
            return Err(m);
        }
        let ghost before = self@;
        let e = Employee { emp_id, name, department, role, is_active: true, created_at: timestamp };
        self.employees.push(e);
        assert(self@ =~= before.push(e@));
        Ok(())
    }

    /// Marks an employee inactive. Fails, changing nothing, when no employee has the id.
    pub fn deactivate_employee(&mut self, emp_id: &str) -> (r: Result<(), String>)
        requires
            old(self).wf(),
        ensures
            final(self).wf(),
            !has_id(old(self)@, emp_id@) ==> {
                &&& final(self)@ == old(self)@
                &&& r matches Err(m) && m@ == "Employee '"@ + emp_id@ + "' not found"@
            },
            has_id(old(self)@, emp_id@) ==> {
                &&& r is Ok
                &&& final(self)@ == deactivated(old(self)@, emp_id@)
            },
    {
        match self.index_of(emp_id) {
            None => {
                let m = "Employee '".to_owned().concat(emp_id).concat("' not found");
                Err(m)
            },
            Some(i) => {
                let ghost before = self@;
                let mut e = self.employees[i].duplicate();
                e.is_active = false;
                self.employees.set(i, e);
                assert forall|k: int| 0 <= k < before.len() implies #[trigger] self@[k] == if before[k].emp_id
                    == emp_id@ {
                    EmployeeView { is_active: false, ..before[k] }
                } else {
                    before[k]
                } by {
                    if k != i {
                        assert(before[k].emp_id != before[i as int].emp_id);
                    }
                }
                assert(self@ =~= deactivated(before, emp_id@));
                Ok(())
            },
        }
    }

    /// The active employees of the department with the given display name, in registry order.
    pub fn get_by_department(&self, dept: &str) -> (r: Vec<Employee>)
        ensures
            employee_views(r@) == self@.filter(
                |e: EmployeeView| e.department.name() == dept@ && e.is_active,
            ),
    {
        let ghost pred = |e: EmployeeView| e.department.name() == dept@ && e.is_active;
        let mut r: Vec<Employee> = Vec::new();
        let mut i: usize = 0;
        while i < self.employees.len()
            invariant
                i <= self.employees.len(),
                pred == (|e: EmployeeView| e.department.name() == dept@ && e.is_active),
                employee_views(r@) == self@.take(i as int).filter(pred),
            decreases self.employees.len() - i,
        {
            let e = &self.employees[i];
            proof {
                assert(self@[i as int] == e@);
                assert(self@.take(i + 1) =~= self@.take(i as int).push(e@));
                self@.take(i as int).lemma_filter_push(e@, pred);
            }
            let keep = text_eq(e.department.to_str(), dept) && e.is_active;
            assert(keep == pred(e@));
            if keep {
                let ghost before = r@;
                r.push(e.duplicate());
                assert(employee_views(r@) =~= employee_views(before).push(e@));
            }
            i = i + 1;
        }
        assert(self@.take(i as int) =~= self@);
        r
    }

    /// All employees, in increasing order of employee id.
    pub fn get_all_employees(&self) -> (r: Vec<Employee>)
        requires
            self.wf(),
        ensures
            employee_views(r@) == roster_by_id(self@),
            sorted_by_id(employee_views(r@)),
            r@.len() == self@.len(),
            forall|x: EmployeeView| employee_views(r@).contains(x) <==> self@.contains(x),
    {
        let mut r: Vec<Employee> = Vec::new();
        let mut i: usize = 0;
        while i < self.employees.len()
            invariant
                i <= self.employees.len(),
                self.wf(),
                r@.len() == i,
                sorted_by_id(employee_views(r@)),
                forall|x: EmployeeView| employee_views(r@).contains(x) <==> self@.take(i as int).contains(x),
            decreases self.employees.len() - i,
        {
            let e = self.employees[i].duplicate();
            assert(self@[i as int] == e@);
            assert forall|k: int| 0 <= k < r@.len() implies #[trigger] employee_views(r@)[k].emp_id != e@.emp_id by {
                let x = employee_views(r@)[k];
                assert(employee_views(r@).contains(x));
                assert(self@.take(i as int).contains(x));
                let j = choose|j: int| 0 <= j < i && self@.take(i as int)[j] == x;
                assert(self@[j] == x);
            }
            let ghost before = employee_views(r@);
            insert_by_id(&mut r, e);
            assert(self@.take(i + 1) =~= self@.take(i as int).push(e@));
            assert forall|x: EmployeeView| employee_views(r@).contains(x) <==> self@.take(i + 1).contains(x) by {
                let t = self@.take(i as int);
                if t.push(e@).contains(x) && x != e@ {
                    let k = choose|k: int| 0 <= k < t.push(e@).len() && t.push(e@)[k] == x;
                    assert(t[k] == x);
                }
                if t.contains(x) {
                    let k = choose|k: int| 0 <= k < t.len() && t[k] == x;
                    assert(t.push(e@)[k] == x);
                }
                if x == e@ {
                    assert(t.push(e@)[t.len() as int] == x);
                }
            }
            i = i + 1;
        }
        assert(self@.take(i as int) =~= self@);
        proof {
            let v = employee_views(r@);
            let c = roster_by_id(self@);
            assert(sorted_by_id(c) && c.len() == self@.len() && forall|x: EmployeeView| c.contains(x) <==> self@.contains(x));
            lemma_sorted_by_id_unique(v, c);
        }
        r
    }

    /// The number of employees, active or not, in the department.
    pub fn count_in_department(&self, d: Department) -> (r: usize)
        ensures
            r == self@.filter(|e: EmployeeView| e.department == d).len(),
    {
        let ghost pred = |e: EmployeeView| e.department == d;
        let mut count: usize = 0;
        let mut i: usize = 0;
        while i < self.employees.len()
            invariant
                i <= self.employees.len(),
                pred == (|e: EmployeeView| e.department == d),
                count == self@.take(i as int).filter(pred).len(),
                count <= i,
            decreases self.employees.len() - i,
        {
            let e = &self.employees[i];
            proof {
                assert(self@[i as int] == e@);
                assert(self@.take(i + 1) =~= self@.take(i as int).push(e@));
                self@.take(i as int).lemma_filter_push(e@, pred);
            }
            if e.department == d {
                count = count + 1;
            }
            i = i + 1;
        }
        assert(self@.take(i as int) =~= self@);
        count
    }

    /// The number of employees.
    pub fn count(&self) -> (r: usize)
        ensures
            r == self@.len(),
    {
        self.employees.len()
    }
}

/// Inserts a record into a sequence kept in increasing id order.
fn insert_by_id(r: &mut Vec<Employee>, e: Employee)
    requires
        sorted_by_id(employee_views(old(r)@)),
        forall|k: int| 0 <= k < old(r)@.len() ==> #[trigger] employee_views(old(r)@)[k].emp_id != e@.emp_id,
    ensures
        sorted_by_id(employee_views(final(r)@)),
        final(r)@.len() == old(r)@.len() + 1,
        forall|x: EmployeeView| employee_views(final(r)@).contains(x) <==> (employee_views(old(r)@).contains(x) || x == e@),
{
    let ghost old_v = employee_views(old(r)@);
    let mut p: usize = 0;
    while p < r.len() && text_lt(r[p].emp_id.as_str(), e.emp_id.as_str())
        invariant
            p <= r@.len(),
            r@ == old(r)@,
            old_v == employee_views(old(r)@),
            forall|k: int| 0 <= k < p ==> lex_lt(#[trigger] old_v[k].emp_id, e@.emp_id),
        decreases r.len() - p,
    {
        assert(old_v[p as int] == r@[p as int]@);
        p = p + 1;
    }
    if p < r.len() {
        proof {
            lemma_lex_total(old_v[p as int].emp_id, e@.emp_id);
        }
    }
    let ghost ev = e@;
    r.insert(p, e);
    let ghost new_v = employee_views(r@);
    assert(new_v =~= old_v.insert(p as int, ev));
    assert forall|i: int, j: int| 0 <= i < j < new_v.len() implies lex_lt(#[trigger] new_v[i].emp_id, #[trigger] new_v[j].emp_id) by {
        if j < p {
        } else if j == p {
        } else if i < p {
            // i before the new record, j after it
            if i < p {
                lemma_lex_transitive(old_v[i].emp_id, ev.emp_id, old_v[p as int].emp_id);
                if j - 1 > p {
                    lemma_lex_transitive(old_v[i].emp_id, old_v[p as int].emp_id, old_v[j - 1].emp_id);
                }
            }
        } else if i == p {
            if j - 1 > p {
                lemma_lex_transitive(ev.emp_id, old_v[p as int].emp_id, old_v[j - 1].emp_id);
            }
        } else {
        }
    }
    assert forall|x: EmployeeView| new_v.contains(x) <==> (old_v.contains(x) || x == ev) by {
        if new_v.contains(x) {
            let k = choose|k: int| 0 <= k < new_v.len() && new_v[k] == x;
            if k < p {
                assert(old_v[k] == x);
            } else if k > p {
                assert(old_v[k - 1] == x);
            }
        }
        if old_v.contains(x) {
            let k = choose|k: int| 0 <= k < old_v.len() && old_v[k] == x;
            if k < p {
                assert(new_v[k] == x);
            } else {
                assert(new_v[k + 1] == x);
            }
        }
        if x == ev {
            assert(new_v[p as int] == x);
        }
    }
}

} // verus!
