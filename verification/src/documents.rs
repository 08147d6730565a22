//! Documents and the AI assistant: who may see a department's documents,
//! what adding or deleting one records and announces, the prompts sent to
//! the assistant, and where the permanent event log (MORK) lives.

use vstd::prelude::*;
use vstd::string::*;

use crate::employees::{Department, Employee, EmployeeView, lookup, may_access, opt_employee_view};
use crate::events::{Event, EventView, event_views};
use crate::notifications::{NotificationType, NotificationView, notification_id_for};
use crate::service::{AppState, employee_not_found, generate_id, plain_id_for};
use crate::text::{
    all_ascii, ascii_lower, contains_seq, contains_text, text_eq, to_lowercase, unicode_lower, unicode_upper,
};

verus! {

/// The append-only event log: it remembers where its file is.
pub struct Mork {
    file_path: String,
}

impl Mork {
    /// The log kept in the file at `file_path`.
    pub fn new(file_path: &str) -> (r: Mork)
        ensures
            r.path() == file_path@,
    {
        Mork { file_path: file_path.to_owned() }
    }

    /// Where the log is kept.
    pub closed spec fn path(&self) -> Seq<char> {
        self.file_path@
    }

    /// Where the log is kept.
    pub fn file_path(&self) -> (r: &str)
        ensures
            r@ == self.path(),
    {
        self.file_path.as_str()
    }
}

/// Whether `emp_id` may see documents filed under the department named
/// `doc_department` (matched ignoring case); a name that is no department
/// shows to nobody.
pub open spec fn document_visible_to(reg: Seq<EmployeeView>, emp_id: Seq<char>, doc_department: Seq<char>) -> bool {
    match Department::parse_upper(unicode_upper(doc_department)) {
        Some(d) => may_access(reg, emp_id, d),
        None => false,
    }
}

/// The alerts that announce a new document to the uploader's active colleagues.
pub open spec fn document_alerts(
    reg: Seq<EmployeeView>,
    uploader: EmployeeView,
    title: Seq<char>,
    doc_id: Seq<char>,
    now: u128,
) -> Seq<NotificationView> {
    let dept = uploader.department.name();
    reg.filter(|e: EmployeeView| e.department.name() == dept && e.is_active).filter(
        |e: EmployeeView| e.emp_id != uploader.emp_id,
    ).map_values(
        |e: EmployeeView|
            NotificationView {
                notification_id: notification_id_for(now),
                emp_id: e.emp_id,
                notification_type: NotificationType::DocumentAdded,
                title: "New document in "@ + dept,
                message: uploader.name + " added a new document: '"@ + title + "'"@,
                is_read: false,
                created_at: now,
                related_id: doc_id,
            },
    )
}

/// What adding a document answers and records.
pub struct DocumentIntake {
    /// Whether the uploader is an employee; only then is the document stored.
    pub accepted: bool,
    pub doc_id: String,
    pub department: String,
    pub message: String,
    pub events: Vec<Event>,
}

/// What deleting a document answers and records.
pub struct DocumentRemoval {
    pub doc_id: String,
    pub message: String,
    pub events: Vec<Event>,
}

/// What a question to the assistant starts with.
pub struct QueryStart {
    pub query_id: String,
    /// The asking employee, when known.
    pub employee: Option<Employee>,
    /// The employee id that the answer names.
    pub emp_id: String,
    /// The department that the answer names.
    pub department: String,
    /// The whole answer's message for an unknown employee; empty otherwise,
    /// where the assistant's reply takes its place.
    pub message: String,
    pub events: Vec<Event>,
}

/// A document offered to ground the assistant's answer.
pub struct GroundingDoc {
    pub department: String,
    pub title: String,
    pub content: String,
}

/// The indices of the documents, filed under the given departments, that the
/// employee may see, in increasing order.
pub open spec fn visible_indices(reg: Seq<EmployeeView>, emp_id: Seq<char>, departments: Seq<Seq<char>>) -> Seq<usize> {
    Seq::new(departments.len(), |i: int| i as usize).filter(
        |i: usize| document_visible_to(reg, emp_id, departments[i as int]),
    )
}

/// The prompt for a question: grounded in the offered document when there is
/// one and the employee may see it, else the general prompt.
pub open spec fn query_prompt_text(
    reg: Seq<EmployeeView>,
    emp: EmployeeView,
    question: Seq<char>,
    doc: Option<(Seq<char>, Seq<char>, Seq<char>)>,
) -> Seq<char> {
    match doc {
        Some((department, title, content)) => if document_visible_to(reg, emp.emp_id, department) {
            grounded_prompt_text(emp, title, content, question)
        } else {
            general_prompt_text(emp, question)
        },
        None => general_prompt_text(emp, question),
    }
}

/// The prompt that grounds the assistant's answer in a document.
pub open spec fn grounded_prompt_text(
    emp: EmployeeView,
    title: Seq<char>,
    content: Seq<char>,
    question: Seq<char>,
) -> Seq<char> {
    "You are WorkBindr AI assistant.\nEmployee: "@ + emp.name + " ("@ + emp.department.name() + ")\nDocument: "@
        + title + "\nContent: "@ + content + "\nQuestion: "@ + question + "\nAnswer based on the document."@
}

/// The prompt used when no document matches the question.
pub open spec fn general_prompt_text(emp: EmployeeView, question: Seq<char>) -> Seq<char> {
    "You are WorkBindr AI. Answer this from "@ + emp.name + " in "@ + emp.department.name() + " dept: "@ + question
}

/// The prompt that grounds the assistant's answer in a document.
pub fn grounded_prompt(emp: &Employee, title: &str, content: &str, question: &str) -> (r: String)
    ensures
        r@ == grounded_prompt_text(emp@, title@, content@, question@),
{
    "You are WorkBindr AI assistant.\nEmployee: ".to_owned().concat(emp.name.as_str()).concat(" (").concat(
        emp.department.to_str(),
    ).concat(")\nDocument: ").concat(title).concat("\nContent: ").concat(content).concat("\nQuestion: ").concat(
        question,
    ).concat("\nAnswer based on the document.")
}

/// The prompt used when no document matches the question.
pub fn general_prompt(emp: &Employee, question: &str) -> (r: String)
    ensures
        r@ == general_prompt_text(emp@, question@),
{
    "You are WorkBindr AI. Answer this from ".to_owned().concat(emp.name.as_str()).concat(" in ").concat(
        emp.department.to_str(),
    ).concat(" dept: ").concat(question)
}

/// The part of a document shown in search results: its first 200 characters
/// followed by `...` when it is longer, else all of it.
pub open spec fn snippet_of(content: Seq<char>) -> Seq<char> {
    if content.len() > 200 {
        content.take(200) + "..."@
    } else {
        content
    }
}

/// The part of a document shown in search results.
pub fn snippet(content: &str) -> (r: String)
    ensures
        r@ == snippet_of(content@),
{
    if content.unicode_len() > 200 {
        content.substring_char(0, 200).to_owned().concat("...")
    } else {
        content.to_owned()
    }
}

/// A keyword hit: the query occurs in the content or in the title, all three
/// taken in lower case.
pub open spec fn keyword_hit(query_lower: Seq<char>, title_lower: Seq<char>, content_lower: Seq<char>) -> bool {
    contains_seq(content_lower, query_lower) || contains_seq(title_lower, query_lower)
}

/// Whether the lower-cased query occurs in the lower-cased content or title.
pub fn keyword_match_lowered(query_lower: &str, title_lower: &str, content_lower: &str) -> (r: bool)
    ensures
        r == keyword_hit(query_lower@, title_lower@, content_lower@),
{
    contains_text(content_lower, query_lower) || contains_text(title_lower, query_lower)
}

/// Whether a document matches a search query by keyword: the query occurs in
/// its content or title, ignoring case.
pub fn keyword_match(query: &str, title: &str, content: &str) -> (r: bool)
    ensures
        r == keyword_hit(unicode_lower(query@), unicode_lower(title@), unicode_lower(content@)),
        all_ascii(query@) && all_ascii(title@) && all_ascii(content@) ==> r == keyword_hit(
            ascii_lower(query@),
            ascii_lower(title@),
            ascii_lower(content@),
        ),
{
    let query_lower = to_lowercase(query);
    let content_lower = to_lowercase(content);
    let title_lower = to_lowercase(title);
    keyword_match_lowered(query_lower.as_str(), title_lower.as_str(), content_lower.as_str())
}

/// A document that the employee may see always grounds the prompt; one that
/// they may not see never does.
pub proof fn lemma_visible_document_grounds_prompt(
    reg: Seq<EmployeeView>,
    emp: EmployeeView,
    question: Seq<char>,
    department: Seq<char>,
    title: Seq<char>,
    content: Seq<char>,
)
    ensures
        document_visible_to(reg, emp.emp_id, department) ==> query_prompt_text(
            reg,
            emp,
            question,
            Some((department, title, content)),
        ) == grounded_prompt_text(emp, title, content, question),
        !document_visible_to(reg, emp.emp_id, department) ==> query_prompt_text(
            reg,
            emp,
            question,
            Some((department, title, content)),
        ) == general_prompt_text(emp, question),
        query_prompt_text(reg, emp, question, None) == general_prompt_text(emp, question),
{
}

/// An active CEO's answer is grounded in any offered document filed under a
/// known department, whichever department that is.
pub proof fn lemma_ceo_prompt_grounded_in_any_department(
    reg: Seq<EmployeeView>,
    emp: EmployeeView,
    question: Seq<char>,
    department: Seq<char>,
    title: Seq<char>,
    content: Seq<char>,
)
    requires
        lookup(reg, emp.emp_id) matches Some(c) && c.is_active && c.department == Department::CEO,
        Department::parse_upper(unicode_upper(department)) is Some,
    ensures
        document_visible_to(reg, emp.emp_id, department),
        query_prompt_text(reg, emp, question, Some((department, title, content))) == grounded_prompt_text(
            emp,
            title,
            content,
            question,
        ),
{
    crate::employees::lemma_ceo_reads_everything(
        reg,
        emp.emp_id,
        Department::parse_upper(unicode_upper(department)).unwrap(),
    );
}

impl AppState {
    /// Whether `emp_id` may see documents filed under the department named `doc_department`.
    pub fn document_visible(&self, emp_id: &str, doc_department: &str) -> (r: bool)
        requires
            self.wf(),
        ensures
            r == document_visible_to(self.registry@, emp_id@, doc_department@),
    {
        match Department::from_str(doc_department) {
            Some(d) => self.registry.can_access(emp_id, &d),
            None => false,
        }
    }

    /// The indices of the documents, filed under `doc_departments`, that
    /// `emp_id` may see, in increasing order.
    pub fn visible_documents(&self, emp_id: &str, doc_departments: &Vec<String>) -> (r: Vec<usize>)
        requires
            self.wf(),
        ensures
            r@ == visible_indices(self.registry@, emp_id@, doc_departments@.map_values(|d: String| d@)),
    {
        let ghost depts = doc_departments@.map_values(|d: String| d@);
        let ghost pred = |i: usize| document_visible_to(self.registry@, emp_id@, depts[i as int]);
        let ghost all = Seq::new(depts.len(), |i: int| i as usize);
        let mut r: Vec<usize> = Vec::new();
        let mut i: usize = 0;
        while i < doc_departments.len()
            invariant
                self.wf(),
                i <= doc_departments.len(),
                depts == doc_departments@.map_values(|d: String| d@),
                pred == (|i: usize| document_visible_to(self.registry@, emp_id@, depts[i as int])),
                all == Seq::new(depts.len(), |i: int| i as usize),
                r@ == all.take(i as int).filter(pred),
            decreases doc_departments.len() - i,
        {
            proof {
                assert(all.take(i + 1) =~= all.take(i as int).push(i));
                all.take(i as int).lemma_filter_push(i, pred);
                assert(depts[i as int] == doc_departments@[i as int]@);
            }
            if self.document_visible(emp_id, doc_departments[i].as_str()) {
                r.push(i);
            }
            i = i + 1;
        }
        assert(all.take(i as int) =~= all);
        r
    }

    /// The prompt for `question` from `emp`: grounded in `doc` when one is
    /// offered and `emp` may see it, else the general prompt. Only a document
    /// that the employee may see ever reaches the prompt.
    pub fn query_prompt(&self, emp: &Employee, question: &str, doc: Option<&GroundingDoc>) -> (r: String)
        requires
            self.wf(),
        ensures
            r@ == query_prompt_text(
                self.registry@,
                emp@,
                question@,
                match doc {
                    Some(d) => Some((d.department@, d.title@, d.content@)),
                    None => None,
                },
            ),
            doc matches Some(d) && document_visible_to(self.registry@, emp.emp_id@, d.department@) ==> r@
                == grounded_prompt_text(emp@, doc.unwrap().title@, doc.unwrap().content@, question@),
            !(doc matches Some(d) && document_visible_to(self.registry@, emp.emp_id@, d.department@)) ==> r@
                == general_prompt_text(emp@, question@),
    {
        match doc {
            Some(d) => if self.document_visible(emp.emp_id.as_str(), d.department.as_str()) {
                grounded_prompt(emp, d.title.as_str(), d.content.as_str(), question)
            } else {
                general_prompt(emp, question)
            },
            None => general_prompt(emp, question),
        }
    }

    /// Starts answering a question at time `now`: the query gets an id and,
    /// when the employee is known, the question is recorded with the asker's
    /// id and department.
    pub fn begin_query(&self, emp_id: &str, query_text: &str, now: u128) -> (r: QueryStart)
        requires
            self.wf(),
        ensures
            r.query_id@ == plain_id_for(now),
            opt_employee_view(r.employee) == lookup(self.registry@, emp_id@),
            match lookup(self.registry@, emp_id@) {
                None => {
                    &&& r.emp_id@ == emp_id@
                    &&& r.department@ == "Unknown"@
                    &&& r.message@ == "❌ Employee ID '"@ + emp_id@ + "' not found."@
                    &&& r.events@.len() == 0
                },
                Some(e) => r.emp_id@ == e.emp_id && r.department@ == e.department.name() && r.message@
                    == Seq::<char>::empty() && event_views(r.events@) == seq![
                    EventView::UserInput {
                        query_id: plain_id_for(now),
                        query_text: "[EMP:"@ + e.emp_id + "|DEPT:"@ + e.department.name() + "] "@ + query_text@,
                    },
                ],
            },
    {
        let query_id = generate_id(now);
        match self.registry.get_employee(emp_id) {
            None => {
                let m = "❌ Employee ID '".to_owned().concat(emp_id).concat("' not found.");
                QueryStart {
                    query_id,
                    employee: None,
                    emp_id: emp_id.to_owned(),
                    department: "Unknown".to_owned(),
                    message: m,
                    events: Vec::new(),
                }
            },
            Some(e) => {
                let text = "[EMP:".to_owned().concat(e.emp_id.as_str()).concat("|DEPT:").concat(
                    e.department.to_str(),
                ).concat("] ").concat(query_text);
                let event = Event::UserInput { query_id: query_id.clone(), query_text: text };
                let mut events: Vec<Event> = Vec::new();
                events.push(event);
                assert(event_views(events@) =~= seq![event@]);
                let who = e.emp_id.clone();
                let department = e.department.to_str().to_owned();
                QueryStart { query_id, employee: Some(e), emp_id: who, department, message: String::new(), events }
            },
        }
    }

    /// Accepts a document from `emp_id` at time `now`: it gets an id and the
    /// uploader's department, the addition is recorded, and the uploader's
    /// active colleagues are notified.
    pub fn add_document(&mut self, emp_id: &str, title: &str, content: &str, now: u128) -> (r: DocumentIntake)
        requires
            old(self).wf(),
        ensures
            final(self).wf(),
            final(self).registry@ == old(self).registry@,
            final(self).task_store@ == old(self).task_store@,
            final(self).chat_store@ == old(self).chat_store@,
            match lookup(old(self).registry@, emp_id@) {
                None => {
                    &&& !r.accepted
                    &&& r.doc_id@ == "none"@
                    &&& r.department@ == "none"@
                    &&& r.message@ == employee_not_found(emp_id@)
                    &&& r.events@.len() == 0
                    &&& final(self).notification_store@ == old(self).notification_store@
                },
                Some(e) => {
                    let dept = e.department.name();
                    let doc_id = plain_id_for(now);
                    &&& r.accepted
                    &&& r.doc_id@ == doc_id
                    &&& r.department@ == dept
                    &&& r.message@ == "✅ '"@ + title@ + "' saved to "@ + dept + " department! doc_id: "@ + doc_id
                    &&& event_views(r.events@) == seq![
                        EventView::DocumentAdded {
                            doc_id,
                            content: "TITLE: "@ + title@ + " | DEPT: "@ + dept + " | BY: "@ + e.name + " | CONTENT: "@
                                + content@,
                        },
                    ]
                    &&& final(self).notification_store@ == old(self).notification_store@ + document_alerts(
                        old(self).registry@,
                        e,
                        title@,
                        doc_id,
                        now,
                    )
                },
            },
    {
        let doc_id = generate_id(now);
        let uploader = match self.registry.get_employee(emp_id) {
            None => {
                let m = "❌ Employee '".to_owned().concat(emp_id).concat("' not found.");
                return DocumentIntake {
                    accepted: false,
                    doc_id: "none".to_owned(),
                    department: "none".to_owned(),
                    message: m,
                    events: Vec::new(),
                };
            },
            Some(e) => e,
        };
        let department = uploader.department.to_str();
        let text = "TITLE: ".to_owned().concat(title).concat(" | DEPT: ").concat(department).concat(" | BY: ").concat(
            uploader.name.as_str(),
        ).concat(" | CONTENT: ").concat(content);
        let event = Event::DocumentAdded { doc_id: doc_id.clone(), content: text };
        let mut events: Vec<Event> = Vec::new();
        events.push(event);
        let colleagues = self.registry.get_by_department(department);
        let ghost reg = self.registry@;
        let ghost pool = crate::employees::employee_views(colleagues@);
        let ghost not_me = |e: EmployeeView| e.emp_id != uploader@.emp_id;
        let ghost alert = |e: EmployeeView|
            NotificationView {
                notification_id: notification_id_for(now),
                emp_id: e.emp_id,
                notification_type: NotificationType::DocumentAdded,
                title: "New document in "@ + department@,
                message: uploader@.name + " added a new document: '"@ + title@ + "'"@,
                is_read: false,
                created_at: now,
                related_id: doc_id@,
            };
        let ghost start = self.notification_store@;
        let mut i: usize = 0;
        while i < colleagues.len()
            invariant
                i <= colleagues.len(),
                self.wf(),
                self.registry@ == reg,
                self.task_store@ == old(self).task_store@,
                self.chat_store@ == old(self).chat_store@,
                pool == crate::employees::employee_views(colleagues@),
                not_me == (|e: EmployeeView| e.emp_id != uploader@.emp_id),
                alert == (|e: EmployeeView|
                    NotificationView {
                        notification_id: notification_id_for(now),
                        emp_id: e.emp_id,
                        notification_type: NotificationType::DocumentAdded,
                        title: "New document in "@ + department@,
                        message: uploader@.name + " added a new document: '"@ + title@ + "'"@,
                        is_read: false,
                        created_at: now,
                        related_id: doc_id@,
                    }),
                self.notification_store@ == start + pool.take(i as int).filter(not_me).map_values(alert),
            decreases colleagues.len() - i,
        {
            let c = &colleagues[i];
            proof {
                assert(pool[i as int] == c@);
                assert(pool.take(i + 1) =~= pool.take(i as int).push(c@));
                pool.take(i as int).lemma_filter_push(c@, not_me);
            }
            if !text_eq(c.emp_id.as_str(), uploader.emp_id.as_str()) {
                let ghost before = self.notification_store@;
                let alert_text = uploader.name.clone().concat(" added a new document: '").concat(title).concat("'");
                self.notification_store.create(
                    c.emp_id.clone(),
                    NotificationType::DocumentAdded,
                    "New document in ".to_owned().concat(department),
                    alert_text,
                    doc_id.clone(),
                    now,
                );
                assert(pool.take(i + 1).filter(not_me).map_values(alert) =~= pool.take(i as int).filter(
                    not_me,
                ).map_values(alert).push(alert(c@)));
                assert(self.notification_store@ =~= start + pool.take(i + 1).filter(not_me).map_values(alert));
            }
            i = i + 1;
        }
        assert(pool.take(i as int) =~= pool);
        assert(pool.filter(not_me).map_values(alert) =~= document_alerts(reg, uploader@, title@, doc_id@, now));
        let m = "✅ '".to_owned().concat(title).concat("' saved to ").concat(department).concat(
            " department! doc_id: ",
        ).concat(doc_id.as_str());
        assert(event_views(events@) =~= seq![event@]);
        DocumentIntake { accepted: true, doc_id, department: department.to_owned(), message: m, events }
    }

    /// Deletes a document on behalf of `emp_id`: the log keeps a tombstone
    /// and the document's history.
    pub fn delete_document(&self, emp_id: &str, doc_id: &str) -> (r: DocumentRemoval)
        requires
            self.wf(),
        ensures
            r.doc_id@ == doc_id@,
            match lookup(self.registry@, emp_id@) {
                None => {
                    &&& r.message@ == employee_not_found(emp_id@)
                    &&& r.events@.len() == 0
                },
                Some(_) => {
                    &&& r.message@ == "✅ Document "@ + doc_id@ + " deleted. History in MORK forever."@
                    &&& event_views(r.events@) == seq![EventView::Tombstone { doc_id: doc_id@ }]
                },
            },
    {
        match self.registry.get_employee(emp_id) {
            None => {
                let m = "❌ Employee '".to_owned().concat(emp_id).concat("' not found.");
                DocumentRemoval { doc_id: doc_id.to_owned(), message: m, events: Vec::new() }
            },
            Some(_) => {
                let event = Event::Tombstone { doc_id: doc_id.to_owned() };
                let mut events: Vec<Event> = Vec::new();
                events.push(event);
                assert(event_views(events@) =~= seq![event@]);
                let m = "✅ Document ".to_owned().concat(doc_id).concat(" deleted. History in MORK forever.");
                DocumentRemoval { doc_id: doc_id.to_owned(), message: m, events }
            },
        }
    }
}

} // verus!
