//! Everything that can happen in WorkBindr, and the line that the permanent
//! event log (MORK) keeps for each event.

use vstd::prelude::*;
use vstd::string::*;

use crate::text::{chars_of, decimal, decimal_string, occurs_at};

verus! {

/// One thing that happened.
#[derive(Clone, Debug)]
pub enum Event {
    /// Someone asked the AI a question.
    UserInput { query_id: String, query_text: String },
    /// The AI gave back an answer.
    QueryResponse { query_id: String, response_text: String },
    /// Someone added a document.
    DocumentAdded { doc_id: String, content: String },
    /// Someone deleted a document; the log keeps its history.
    Tombstone { doc_id: String },
    /// Someone created a task.
    TaskCreated {
        task_id: String,
        title: String,
        assigned_to: String,
        priority: String,
        department: String,
    },
    /// Someone changed a task's status.
    TaskUpdated { task_id: String, old_status: String, new_status: String, updated_by: String },
    /// Someone sent a direct message.
    MessageSent { message_id: String, from_emp_id: String, to_emp_id: String, department: String },
    /// The CEO added an employee.
    EmployeeAdded { emp_id: String, name: String, department: String },
}

/// The mathematical model of an event.
pub enum EventView {
    UserInput { query_id: Seq<char>, query_text: Seq<char> },
    QueryResponse { query_id: Seq<char>, response_text: Seq<char> },
    DocumentAdded { doc_id: Seq<char>, content: Seq<char> },
    Tombstone { doc_id: Seq<char> },
    TaskCreated {
        task_id: Seq<char>,
        title: Seq<char>,
        assigned_to: Seq<char>,
        priority: Seq<char>,
        department: Seq<char>,
    },
    TaskUpdated { task_id: Seq<char>, old_status: Seq<char>, new_status: Seq<char>, updated_by: Seq<char> },
    MessageSent { message_id: Seq<char>, from_emp_id: Seq<char>, to_emp_id: Seq<char>, department: Seq<char> },
    EmployeeAdded { emp_id: Seq<char>, name: Seq<char>, department: Seq<char> },
}

impl View for Event {
    type V = EventView;

    open spec fn view(&self) -> EventView {
        match self {
            Event::UserInput { query_id, query_text } => EventView::UserInput {
                query_id: query_id@,
                query_text: query_text@,
            },
            Event::QueryResponse { query_id, response_text } => EventView::QueryResponse {
                query_id: query_id@,
                response_text: response_text@,
            },
            Event::DocumentAdded { doc_id, content } => EventView::DocumentAdded {
                doc_id: doc_id@,
                content: content@,
            },
            Event::Tombstone { doc_id } => EventView::Tombstone { doc_id: doc_id@ },
            Event::TaskCreated { task_id, title, assigned_to, priority, department } => EventView::TaskCreated {
                task_id: task_id@,
                title: title@,
                assigned_to: assigned_to@,
                priority: priority@,
                department: department@,
            },
            Event::TaskUpdated { task_id, old_status, new_status, updated_by } => EventView::TaskUpdated {
                task_id: task_id@,
                old_status: old_status@,
                new_status: new_status@,
                updated_by: updated_by@,
            },
            Event::MessageSent { message_id, from_emp_id, to_emp_id, department } => EventView::MessageSent {
                message_id: message_id@,
                from_emp_id: from_emp_id@,
                to_emp_id: to_emp_id@,
                department: department@,
            },
            Event::EmployeeAdded { emp_id, name, department } => EventView::EmployeeAdded {
                emp_id: emp_id@,
                name: name@,
                department: department@,
            },
        }
    }
}

/// The models of a sequence of events.
pub open spec fn event_views(s: Seq<Event>) -> Seq<EventView> {
    s.map_values(|e: Event| e@)
}

/// The name of an event's kind, as the log writes it.
pub open spec fn kind_name(e: EventView) -> Seq<char> {
    match e {
        EventView::UserInput { .. } => "UserInput"@,
        EventView::QueryResponse { .. } => "QueryResponse"@,
        EventView::DocumentAdded { .. } => "DocumentAdded"@,
        EventView::Tombstone { .. } => "Tombstone"@,
        EventView::TaskCreated { .. } => "TaskCreated"@,
        EventView::TaskUpdated { .. } => "TaskUpdated"@,
        EventView::MessageSent { .. } => "MessageSent"@,
        EventView::EmployeeAdded { .. } => "EmployeeAdded"@,
    }
}

/// The fields of an event as the log writes them: `<field>: <value> | ...`.
pub open spec fn fields_text(e: EventView) -> Seq<char> {
    match e {
        EventView::UserInput { query_id, query_text } => "query_id: "@ + query_id + " | text: "@ + query_text,
        EventView::QueryResponse { query_id, response_text } => "query_id: "@ + query_id + " | response: "@
            + response_text,
        EventView::DocumentAdded { doc_id, content } => "doc_id: "@ + doc_id + " | content: "@ + content,
        EventView::Tombstone { doc_id } => "doc_id: "@ + doc_id + " | status: DELETED"@,
        EventView::TaskCreated { task_id, title, assigned_to, priority, department } => "task_id: "@ + task_id
            + " | title: "@ + title + " | assigned_to: "@ + assigned_to + " | priority: "@ + priority
            + " | department: "@ + department,
        EventView::TaskUpdated { task_id, old_status, new_status, updated_by } => "task_id: "@ + task_id
            + " | old_status: "@ + old_status + " | new_status: "@ + new_status + " | updated_by: "@ + updated_by,
        EventView::MessageSent { message_id, from_emp_id, to_emp_id, department } => "message_id: "@ + message_id
            + " | from: "@ + from_emp_id + " | to: "@ + to_emp_id + " | department: "@ + department,
        EventView::EmployeeAdded { emp_id, name, department } => "emp_id: "@ + emp_id + " | name: "@ + name
            + " | department: "@ + department,
    }
}

/// The log line recorded for an event at `timestamp` (milliseconds):
/// `[<timestamp>] EVENT: <kind> | <field>: <value> | ...`.
pub open spec fn log_line(e: EventView, timestamp: u128) -> Seq<char> {
    "["@ + decimal(timestamp as nat) + "] EVENT: "@ + kind_name(e) + " | "@ + fields_text(e)
}

fn kind_str(event: &Event) -> (r: &'static str)
    ensures
        r@ == kind_name(event@),
{
    match event {
        Event::UserInput { .. } => "UserInput",
        Event::QueryResponse { .. } => "QueryResponse",
        Event::DocumentAdded { .. } => "DocumentAdded",
        Event::Tombstone { .. } => "Tombstone",
        Event::TaskCreated { .. } => "TaskCreated",
        Event::TaskUpdated { .. } => "TaskUpdated",
        Event::MessageSent { .. } => "MessageSent",
        Event::EmployeeAdded { .. } => "EmployeeAdded",
    }
}

fn fields_string(event: &Event) -> (r: String)
    ensures
        r@ == fields_text(event@),
{
    match event {
        Event::UserInput { query_id, query_text } => "query_id: ".to_owned().concat(query_id.as_str()).concat(
            " | text: ",
        ).concat(query_text.as_str()),
        Event::QueryResponse { query_id, response_text } => "query_id: ".to_owned().concat(
            query_id.as_str(),
        ).concat(" | response: ").concat(response_text.as_str()),
        Event::DocumentAdded { doc_id, content } => "doc_id: ".to_owned().concat(doc_id.as_str()).concat(
            " | content: ",
        ).concat(content.as_str()),
        Event::Tombstone { doc_id } => "doc_id: ".to_owned().concat(doc_id.as_str()).concat(" | status: DELETED"),
        Event::TaskCreated { task_id, title, assigned_to, priority, department } => "task_id: ".to_owned().concat(
            task_id.as_str(),
        ).concat(" | title: ").concat(title.as_str()).concat(" | assigned_to: ").concat(
            assigned_to.as_str(),
        ).concat(" | priority: ").concat(priority.as_str()).concat(" | department: ").concat(
            department.as_str(),
        ),
        Event::TaskUpdated { task_id, old_status, new_status, updated_by } => "task_id: ".to_owned().concat(
            task_id.as_str(),
        ).concat(" | old_status: ").concat(old_status.as_str()).concat(" | new_status: ").concat(
            new_status.as_str(),
        ).concat(" | updated_by: ").concat(updated_by.as_str()),
        Event::MessageSent { message_id, from_emp_id, to_emp_id, department } => "message_id: ".to_owned().concat(
            message_id.as_str(),
        ).concat(" | from: ").concat(from_emp_id.as_str()).concat(" | to: ").concat(to_emp_id.as_str()).concat(
            " | department: ",
        ).concat(department.as_str()),
        Event::EmployeeAdded { emp_id, name, department } => "emp_id: ".to_owned().concat(emp_id.as_str()).concat(
            " | name: ",
        ).concat(name.as_str()).concat(" | department: ").concat(department.as_str()),
    }
}

/// The log line recorded for an event at `timestamp` (milliseconds).
pub fn log_entry(event: &Event, timestamp: u128) -> (r: String)
    ensures
        r@ == log_line(event@, timestamp),
{
    "[".to_owned().concat(decimal_string(timestamp).as_str()).concat("] EVENT: ").concat(kind_str(event)).concat(
        " | ",
    ).concat(fields_string(event).as_str())
}

/// A decimal digit.
pub open spec fn is_digit_char(c: char) -> bool {
    48 <= (c as u32) && (c as u32) <= 57
}

/// What follows a log line's timestamp when the event is of kind `kind`.
pub open spec fn kind_header(kind: Seq<char>) -> Seq<char> {
    "] EVENT: "@ + kind + " |"@
}

/// The line is a log line of an event of kind `kind`: it opens with `[`, a
/// timestamp's digits and `] EVENT: <kind> |`.
pub open spec fn line_of_kind(line: Seq<char>, kind: Seq<char>) -> bool {
    &&& line.len() > 0
    &&& line[0] == '['
    &&& exists|i: int|
        1 <= i && (forall|j: int| 1 <= j < i ==> is_digit_char(#[trigger] line[j])) && occurs_at(
            line,
            kind_header(kind),
            i,
        )
}

/// The number of lines that are log lines of kind `kind`.
pub open spec fn lines_of_kind(lines: Seq<Seq<char>>, kind: Seq<char>) -> nat {
    lines.filter(|l: Seq<char>| line_of_kind(l, kind)).len()
}

/// The log lines of a sequence of events, each with its timestamp.
pub open spec fn log_lines(entries: Seq<(EventView, u128)>) -> Seq<Seq<char>> {
    entries.map_values(|x: (EventView, u128)| log_line(x.0, x.1))
}

fn matches_at(h: &Vec<char>, m: &Vec<char>, i: usize) -> (r: bool)
    ensures
        r == occurs_at(h@, m@, i as int),
{
    if i > h.len() || m.len() > h.len() - i {
        return false;
    }
    let mut j: usize = 0;
    while j < m.len()
        invariant
            i + m.len() <= h.len(),
            j <= m.len(),
            forall|t: int| 0 <= t < j ==> h@[i + t] == m@[t],
        decreases m.len() - j,
    {
        if h[i + j] != m[j] {
            assert(h@.subrange(i as int, i + m@.len())[j as int] != m@[j as int]);
            return false;
        }
        j = j + 1;
    }
    assert(h@.subrange(i as int, i + m@.len()) =~= m@);
    true
}

/// Whether the line is a log line of an event of kind `kind`.
pub fn line_has_kind(line: &str, kind: &str) -> (r: bool)
    ensures
        r == line_of_kind(line@, kind@),
{
    proof {
        reveal_strlit("] EVENT: ");
    }
    let c = chars_of(line);
    if c.len() == 0 || c[0] != '[' {
        return false;
    }
    let mut j: usize = 1;
    while j < c.len() && is_digit(c[j])
        invariant
            c@ == line@,
            1 <= j <= c.len(),
            forall|t: int| 1 <= t < j ==> is_digit_char(#[trigger] c@[t]),
        decreases c.len() - j,
    {
        j = j + 1;
    }
    let header = "] EVENT: ".to_owned().concat(kind).concat(" |");
    let h = chars_of(header.as_str());
    let r = matches_at(&c, &h, j);
    proof {
        let l = line@;
        let hd = kind_header(kind@);
        assert(h@ == hd);
        if r {
            assert(1 <= j && (forall|t: int| 1 <= t < j ==> is_digit_char(#[trigger] l[t])) && occurs_at(l, hd, j as int));
        } else {
            assert forall|i: int|
                !(1 <= i && (forall|t: int| 1 <= t < i ==> is_digit_char(#[trigger] l[t])) && occurs_at(l, hd, i)) by {
                if 1 <= i && (forall|t: int| 1 <= t < i ==> is_digit_char(#[trigger] l[t])) && occurs_at(l, hd, i) {
                    assert(l.subrange(i, i + hd.len())[0] == hd[0]);
                    assert(l[i] == ']');
                    if i < j {
                        assert(is_digit_char(l[i]));
                    } else if i > j {
                        assert(is_digit_char(l[j as int]));
                    }
                }
            }
        }
    }
    r
}

fn is_digit(c: char) -> (r: bool)
    ensures
        r == is_digit_char(c),
{
    '0' <= c && c <= '9'
}

proof fn lemma_decimal_digits(n: nat)
    ensures
        decimal(n).len() >= 1,
        forall|j: int| 0 <= j < decimal(n).len() ==> is_digit_char(#[trigger] decimal(n)[j]),
    decreases n,
{
    if n >= 10 {
        lemma_decimal_digits(n / 10);
    }
}

/// A log line is of kind `UserInput` exactly when its event is a question,
/// and of kind `MessageSent` exactly when its event is a sent message.
pub proof fn lemma_log_line_kind(e: EventView, timestamp: u128, kind: Seq<char>)
    requires
        kind == "UserInput"@ || kind == "MessageSent"@,
    ensures
        line_of_kind(log_line(e, timestamp), kind) <==> kind_name(e) == kind,
{
    reveal_strlit("[");
    reveal_strlit("] EVENT: ");
    reveal_strlit(" | ");
    reveal_strlit(" |");
    reveal_strlit(" ");
    reveal_strlit("UserInput");
    reveal_strlit("QueryResponse");
    reveal_strlit("DocumentAdded");
    reveal_strlit("Tombstone");
    reveal_strlit("TaskCreated");
    reveal_strlit("TaskUpdated");
    reveal_strlit("MessageSent");
    reveal_strlit("EmployeeAdded");
    let d = decimal(timestamp as nat);
    lemma_decimal_digits(timestamp as nat);
    let k = kind_name(e);
    let hd = kind_header(kind);
    let front = "["@ + d;
    let p = front.len() as int;
    let l = log_line(e, timestamp);
    assert(" | "@ =~= " |"@ + " "@);
    assert(l =~= front + (kind_header(k) + (" "@ + fields_text(e))));
    assert forall|j: int| 1 <= j < p implies is_digit_char(#[trigger] l[j]) by {
        assert(l[j] == d[j - 1]);
    }
    assert(l[0] == '[');
    if k == kind {
        assert(l.subrange(p, p + hd.len()) =~= hd);
        assert(1 <= p && (forall|j: int| 1 <= j < p ==> is_digit_char(#[trigger] l[j])) && occurs_at(l, hd, p));
    } else {
        assert forall|i: int|
            !(1 <= i && (forall|j: int| 1 <= j < i ==> is_digit_char(#[trigger] l[j])) && occurs_at(l, hd, i)) by {
            if 1 <= i && (forall|j: int| 1 <= j < i ==> is_digit_char(#[trigger] l[j])) && occurs_at(l, hd, i) {
                assert(l.subrange(i, i + hd.len())[0] == hd[0]);
                assert(l[p] == ']');
                if i < p {
                    assert(is_digit_char(l[i]));
                } else if i > p {
                    assert(is_digit_char(l[p]));
                } else {
                    assert(l.subrange(i, i + hd.len())[9] == hd[9]);
                    assert(l[p + 9] == k[0]);
                }
            }
        }
    }
}

/// Counting the log lines of kind `UserInput` counts the questions asked, and
/// counting those of kind `MessageSent` counts the messages sent.
pub proof fn lemma_lines_of_kind_count(entries: Seq<(EventView, u128)>, kind: Seq<char>)
    requires
        kind == "UserInput"@ || kind == "MessageSent"@,
    ensures
        lines_of_kind(log_lines(entries), kind) == entries.filter(|x: (EventView, u128)| kind_name(x.0) == kind).len(),
    decreases entries.len(),
{
    let on_line = |l: Seq<char>| line_of_kind(l, kind);
    let on_event = |x: (EventView, u128)| kind_name(x.0) == kind;
    if entries.len() == 0 {
        assert(log_lines(entries) =~= Seq::<Seq<char>>::empty());
        crate::order::lemma_filter_none(log_lines(entries), on_line);
        crate::order::lemma_filter_none(entries, on_event);
    } else {
        let rest = entries.drop_last();
        let x = entries.last();
        lemma_lines_of_kind_count(rest, kind);
        assert(entries =~= rest.push(x));
        assert(log_lines(entries) =~= log_lines(rest).push(log_line(x.0, x.1)));
        lemma_log_line_kind(x.0, x.1, kind);
        log_lines(rest).lemma_filter_push(log_line(x.0, x.1), on_line);
        rest.lemma_filter_push(x, on_event);
    }
}

} // verus!
