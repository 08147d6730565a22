//! Direct messages between employees, read marks, and conversation lists.

use vstd::prelude::*;
use vstd::string::*;

use crate::order::{
    in_order, lemma_filter_len_mono, lemma_filter_none, lemma_insert_stable, lemma_stable_sorted_same_records,
    lemma_stable_sorted_unique, lemma_with_key_push, stable_sorted,
};
use crate::text::{
    decimal, decimal_string, lemma_lex_asymmetric, lemma_lex_irreflexive, lemma_lex_total,
    lemma_lex_transitive, lex_lt, text_eq, text_lt,
};

verus! {

/// One direct message.
#[derive(Clone, Debug)]
pub struct Message {
    pub message_id: String,
    /// The sender's employee id.
    pub from_emp_id: String,
    /// The receiver's employee id.
    pub to_emp_id: String,
    pub content: String,
    /// The department the conversation belongs to.
    pub department: String,
    /// Whether the receiver has seen it.
    pub is_read: bool,
    pub created_at: u128,
}

/// The mathematical model of a message.
pub struct MessageView {
    pub message_id: Seq<char>,
    pub from_emp_id: Seq<char>,
    pub to_emp_id: Seq<char>,
    pub content: Seq<char>,
    pub department: Seq<char>,
    pub is_read: bool,
    pub created_at: u128,
}

impl View for Message {
    type V = MessageView;

    open spec fn view(&self) -> MessageView {
        MessageView {
            message_id: self.message_id@,
            from_emp_id: self.from_emp_id@,
            to_emp_id: self.to_emp_id@,
            content: self.content@,
            department: self.department@,
            is_read: self.is_read,
            created_at: self.created_at,
        }
    }
}

impl Message {
    /// A copy of this record.
    pub fn duplicate(&self) -> (r: Message)
        ensures
            r@ == self@,
    {
        Message {
            message_id: self.message_id.clone(),
            from_emp_id: self.from_emp_id.clone(),
            to_emp_id: self.to_emp_id.clone(),
            content: self.content.clone(),
            department: self.department.clone(),
            is_read: self.is_read,
            created_at: self.created_at,
        }
    }
}

/// The models of a sequence of messages.
pub open spec fn message_views(s: Seq<Message>) -> Seq<MessageView> {
    s.map_values(|m: Message| m@)
}

/// The models of a sequence of strings.
pub open spec fn string_views(s: Seq<String>) -> Seq<Seq<char>> {
    s.map_values(|x: String| x@)
}

/// The sending time of a message, by which conversations are ordered.
pub open spec fn message_time() -> spec_fn(MessageView) -> u128 {
    |m: MessageView| m.created_at
}

/// The id given to a message sent at `timestamp`.
pub open spec fn message_id_for(timestamp: u128) -> Seq<char> {
    "msg_"@ + decimal(timestamp as nat)
}

/// The key of the conversation between two employees: both ids, the smaller
/// first, joined by `_`.
pub open spec fn conversation_key_of(a: Seq<char>, b: Seq<char>) -> Seq<char> {
    if lex_lt(b, a) {
        b + "_"@ + a
    } else {
        a + "_"@ + b
    }
}

/// The key of the conversation between two employees; the same whichever is named first.
pub fn conversation_key(emp_a: &str, emp_b: &str) -> (r: String)
    ensures
        r@ == conversation_key_of(emp_a@, emp_b@),
{
    if text_lt(emp_b, emp_a) {
        emp_b.to_owned().concat("_").concat(emp_a)
    } else {
        emp_a.to_owned().concat("_").concat(emp_b)
    }
}

/// The conversation key does not depend on the order in which the two employees are named.
pub proof fn lemma_conversation_key_symmetric(a: Seq<char>, b: Seq<char>)
    ensures
        conversation_key_of(a, b) == conversation_key_of(b, a),
{
    lemma_lex_total(a, b);
    lemma_lex_asymmetric(a, b);
    lemma_lex_asymmetric(b, a);
}

/// The conversation between two employees is the same whichever is named first.
pub proof fn lemma_conversation_symmetric(
    s: Seq<MessageView>,
    a: Seq<char>,
    b: Seq<char>,
    x: Seq<MessageView>,
    y: Seq<MessageView>,
)
    requires
        stable_sorted(x, s.filter(|m: MessageView| between(m, a, b)), message_time(), false),
        stable_sorted(y, s.filter(|m: MessageView| between(m, b, a)), message_time(), false),
    ensures
        x == y,
{
    assert((|m: MessageView| between(m, a, b)) =~= (|m: MessageView| between(m, b, a)));
    lemma_stable_sorted_unique(x, y, s.filter(|m: MessageView| between(m, a, b)), message_time(), false);
}

/// A conversation shows exactly the messages exchanged between the two employees.
pub proof fn lemma_conversation_shows_exchanged(
    s: Seq<MessageView>,
    a: Seq<char>,
    b: Seq<char>,
    x: Seq<MessageView>,
    m: MessageView,
)
    requires
        stable_sorted(x, s.filter(|m: MessageView| between(m, a, b)), message_time(), false),
    ensures
        x.contains(m) <==> (s.contains(m) && between(m, a, b)),
{
    let p = |m: MessageView| between(m, a, b);
    lemma_stable_sorted_same_records(x, s.filter(p), message_time(), false, m);
    if s.contains(m) && between(m, a, b) {
        let i = choose|i: int| 0 <= i < s.len() && s[i] == m;
        s.lemma_filter_contains(p, i);
    }
    if s.filter(p).contains(m) {
        s.lemma_filter_contains_rev(p, m);
        let i = choose|i: int| 0 <= i < s.filter(p).len() && s.filter(p)[i] == m;
        s.lemma_filter_pred(p, i);
    }
}

/// The message is between the two employees, in either direction.
pub open spec fn between(m: MessageView, a: Seq<char>, b: Seq<char>) -> bool {
    (m.from_emp_id == a && m.to_emp_id == b) || (m.from_emp_id == b && m.to_emp_id == a)
}

/// The employee takes part in the message.
pub open spec fn involves(m: MessageView, emp: Seq<char>) -> bool {
    m.from_emp_id == emp || m.to_emp_id == emp
}

/// The other party of a message that involves `emp`.
pub open spec fn partner_of(m: MessageView, emp: Seq<char>) -> Seq<char> {
    if m.from_emp_id == emp {
        m.to_emp_id
    } else {
        m.from_emp_id
    }
}

/// Strictly increasing in lexicographic order, hence without repeats.
pub open spec fn strictly_sorted(s: Seq<Seq<char>>) -> bool {
    forall|i: int, j: int| 0 <= i < j < s.len() ==> lex_lt(#[trigger] s[i], #[trigger] s[j])
}

/// The number of unread messages from `from` to `to`.
pub open spec fn unread_from(chat: Seq<MessageView>, from: Seq<char>, to: Seq<char>) -> nat {
    chat.filter(|m: MessageView| m.from_emp_id == from && m.to_emp_id == to && !m.is_read).len()
}

/// The number of unread messages to `to`.
pub open spec fn unread_to(chat: Seq<MessageView>, to: Seq<char>) -> nat {
    chat.filter(|m: MessageView| m.to_emp_id == to && !m.is_read).len()
}

/// The unread messages to `to`, summed over the senders in `senders`.
pub open spec fn unread_from_each(senders: Seq<Seq<char>>, chat: Seq<MessageView>, to: Seq<char>) -> nat
    decreases senders.len(),
{
    if senders.len() == 0 {
        0
    } else {
        unread_from_each(senders.drop_last(), chat, to) + unread_from(chat, senders.last(), to)
    }
}

/// No string occurs twice.
pub open spec fn no_repeats(s: Seq<Seq<char>>) -> bool {
    forall|i: int, j: int| 0 <= i < j < s.len() ==> #[trigger] s[i] != #[trigger] s[j]
}

proof fn lemma_unread_from_each_empty(senders: Seq<Seq<char>>, to: Seq<char>)
    ensures
        unread_from_each(senders, Seq::<MessageView>::empty(), to) == 0,
    decreases senders.len(),
{
    if senders.len() > 0 {
        lemma_unread_from_each_empty(senders.drop_last(), to);
        let from = senders.last();
        lemma_filter_none(
            Seq::<MessageView>::empty(),
            |m: MessageView| m.from_emp_id == from && m.to_emp_id == to && !m.is_read,
        );
    }
}

proof fn lemma_unread_from_each_push(senders: Seq<Seq<char>>, chat: Seq<MessageView>, m: MessageView, to: Seq<char>)
    requires
        no_repeats(senders),
    ensures
        unread_from_each(senders, chat.push(m), to) == unread_from_each(senders, chat, to) + if m.to_emp_id == to
            && !m.is_read && senders.contains(m.from_emp_id) {
            1int
        } else {
            0int
        },
    decreases senders.len(),
{
    if senders.len() > 0 {
        let rest = senders.drop_last();
        let from = senders.last();
        assert(no_repeats(rest)) by {
            assert forall|i: int, j: int| 0 <= i < j < rest.len() implies #[trigger] rest[i] != #[trigger] rest[j] by {
                assert(rest[i] == senders[i] && rest[j] == senders[j]);
            }
        }
        lemma_unread_from_each_push(rest, chat, m, to);
        chat.lemma_filter_push(m, |m: MessageView| m.from_emp_id == from && m.to_emp_id == to && !m.is_read);
        assert(!rest.contains(from)) by {
            if rest.contains(from) {
                let i = choose|i: int| 0 <= i < rest.len() && rest[i] == from;
                assert(senders[i] == senders[senders.len() - 1]);
            }
        }
        assert(senders =~= rest.push(from));
        assert(senders.contains(m.from_emp_id) <==> (rest.contains(m.from_emp_id) || m.from_emp_id == from)) by {
            if senders.contains(m.from_emp_id) {
                let i = choose|i: int| 0 <= i < senders.len() && senders[i] == m.from_emp_id;
                if i < rest.len() {
                    assert(rest[i] == m.from_emp_id);
                }
            }
            if rest.contains(m.from_emp_id) {
                let i = choose|i: int| 0 <= i < rest.len() && rest[i] == m.from_emp_id;
                assert(senders[i] == m.from_emp_id);
            }
            if m.from_emp_id == from {
                assert(senders[senders.len() - 1] == from);
            }
        }
    }
}

proof fn lemma_unread_from_each_total(senders: Seq<Seq<char>>, chat: Seq<MessageView>, to: Seq<char>)
    requires
        no_repeats(senders),
        forall|i: int|
            0 <= i < chat.len() && (#[trigger] chat[i]).to_emp_id == to && !chat[i].is_read ==> senders.contains(
                chat[i].from_emp_id,
            ),
    ensures
        unread_from_each(senders, chat, to) == unread_to(chat, to),
    decreases chat.len(),
{
    let pred = |m: MessageView| m.to_emp_id == to && !m.is_read;
    if chat.len() == 0 {
        lemma_unread_from_each_empty(senders, to);
        lemma_filter_none(chat, pred);
        assert(chat =~= Seq::<MessageView>::empty());
    } else {
        let rest = chat.drop_last();
        let m = chat.last();
        assert forall|i: int|
            0 <= i < rest.len() && (#[trigger] rest[i]).to_emp_id == to && !rest[i].is_read implies senders.contains(
                rest[i].from_emp_id,
            ) by {
            assert(rest[i] == chat[i]);
        }
        lemma_unread_from_each_total(senders, rest, to);
        assert(chat =~= rest.push(m));
        lemma_unread_from_each_push(senders, rest, m, to);
        rest.lemma_filter_push(m, pred);
        if m.to_emp_id == to && !m.is_read {
            assert(chat[chat.len() - 1] == m);
        }
    }
}

/// An employee's unread total is the sum, over their conversation partners,
/// of the unread messages from each.
pub proof fn lemma_unread_total_is_sum_over_partners(chat: Seq<MessageView>, emp_id: Seq<char>, partners: Seq<Seq<char>>)
    requires
        strictly_sorted(partners),
        forall|x: Seq<char>|
            partners.contains(x) <==> exists|i: int|
                0 <= i < chat.len() && involves(#[trigger] chat[i], emp_id) && partner_of(chat[i], emp_id) == x,
    ensures
        unread_to(chat, emp_id) == unread_from_each(partners, chat, emp_id),
{
    assert forall|i: int, j: int| 0 <= i < j < partners.len() implies #[trigger] partners[i] != #[trigger] partners[j] by {
        lemma_lex_irreflexive(partners[i]);
    }
    assert forall|i: int|
        0 <= i < chat.len() && (#[trigger] chat[i]).to_emp_id == emp_id && !chat[i].is_read implies partners.contains(
            chat[i].from_emp_id,
        ) by {
        assert(involves(chat[i], emp_id));
        assert(partner_of(chat[i], emp_id) == chat[i].from_emp_id);
    }
    lemma_unread_from_each_total(partners, chat, emp_id);
}

/// The unread messages from one sender are at most all the unread messages
/// of the receiver.
pub proof fn lemma_unread_from_at_most_total(chat: Seq<MessageView>, from: Seq<char>, to: Seq<char>)
    ensures
        unread_from(chat, from, to) <= unread_to(chat, to),
{
    lemma_filter_len_mono(
        chat,
        |m: MessageView| m.from_emp_id == from && m.to_emp_id == to && !m.is_read,
        |m: MessageView| m.to_emp_id == to && !m.is_read,
    );
}

/// Oldest first, and among equal times in their original order.
fn sort_oldest_first(v: Vec<Message>) -> (r: Vec<Message>)
    ensures
        stable_sorted(message_views(r@), message_views(v@), message_time(), false),
{
    let ghost key = message_time();
    let ghost input = message_views(v@);
    let mut out: Vec<Message> = Vec::new();
    let mut i: usize = 0;
    assert(message_views(out@) =~= input.take(0));
    while i < v.len()
        invariant
            i <= v.len(),
            key == message_time(),
            input == message_views(v@),
            stable_sorted(message_views(out@), input.take(i as int), key, false),
        decreases v.len() - i,
    {
        let x = v[i].duplicate();
        let ghost cur = message_views(out@);
        let mut p: usize = 0;
        while p < out.len() && out[p].created_at <= x.created_at
            invariant
                p <= out.len(),
                cur == message_views(out@),
                key == message_time(),
                forall|j: int| 0 <= j < p ==> in_order(key(#[trigger] cur[j]), key(x@), false),
            decreases out.len() - p,
        {
            assert(cur[p as int] == out@[p as int]@);
            p = p + 1;
        }
        proof {
            assert forall|j: int| p <= j < cur.len() implies !in_order(key(#[trigger] cur[j]), key(x@), false) by {
                assert(cur[p as int] == out@[p as int]@);
                assert(in_order(key(cur[p as int]), key(cur[j]), false) || j == p);
            }
            lemma_insert_stable(cur, x@, p as int, key, false);
            lemma_with_key_push(input.take(i as int), x@, key);
            assert(input.take(i + 1) =~= input.take(i as int).push(x@));
        }
        out.insert(p, x);
        assert(message_views(out@) =~= cur.insert(p as int, x@));
        i = i + 1;
    }
    assert(input.take(i as int) =~= input);
    out
}

/// Adds a string to a strictly sorted list unless it is already there.
fn insert_distinct(out: &mut Vec<String>, x: String)
    requires
        strictly_sorted(string_views(old(out)@)),
    ensures
        strictly_sorted(string_views(final(out)@)),
        forall|y: Seq<char>| string_views(final(out)@).contains(y) <==> (string_views(old(out)@).contains(y) || y == x@),
{
    let ghost cur = string_views(out@);
    let mut p: usize = 0;
    while p < out.len() && text_lt(out[p].as_str(), x.as_str())
        invariant
            p <= out.len(),
            out@ == old(out)@,
            cur == string_views(old(out)@),
            forall|j: int| 0 <= j < p ==> lex_lt(#[trigger] cur[j], x@),
        decreases out.len() - p,
    {
        assert(cur[p as int] == out@[p as int]@);
        p = p + 1;
    }
    if p < out.len() && text_eq(out[p].as_str(), x.as_str()) {
        assert(cur[p as int] == x@);
        return;
    }
    if p < out.len() {
        proof {
            assert(cur[p as int] == out@[p as int]@);
            lemma_lex_total(cur[p as int], x@);
        }
    }
    let ghost xv = x@;
    out.insert(p, x);
    let ghost n = string_views(out@);
    assert(n =~= cur.insert(p as int, xv));
    assert forall|i: int, j: int| 0 <= i < j < n.len() implies lex_lt(#[trigger] n[i], #[trigger] n[j]) by {
        if i < p && j > p {
            lemma_lex_transitive(cur[i], xv, cur[p as int]);
            if j - 1 > p {
                lemma_lex_transitive(cur[i], cur[p as int], cur[j - 1]);
            }
        } else if i == p && j - 1 > p {
            lemma_lex_transitive(xv, cur[p as int], cur[j - 1]);
        }
    }
    assert forall|y: Seq<char>| n.contains(y) <==> (cur.contains(y) || y == xv) by {
        if n.contains(y) {
            let k = choose|k: int| 0 <= k < n.len() && n[k] == y;
            if k < p {
                assert(cur[k] == y);
            } else if k > p {
                assert(cur[k - 1] == y);
            }
        }
        if cur.contains(y) {
            let k = choose|k: int| 0 <= k < cur.len() && cur[k] == y;
            if k < p {
                assert(n[k] == y);
            } else {
                assert(n[k + 1] == y);
            }
        }
        if y == xv {
            assert(n[p as int] == y);
        }
    }
}

/// All messages, in the order in which they were sent.
pub struct ChatStore {
    messages: Vec<Message>,
}

impl View for ChatStore {
    type V = Seq<MessageView>;

    closed spec fn view(&self) -> Seq<MessageView> {
        message_views(self.messages@)
    }
}

impl ChatStore {
    /// A store holding the given messages.
    pub fn new(existing: Vec<Message>) -> (r: ChatStore)
        ensures
            r@ == message_views(existing@),
    {
        ChatStore { messages: existing }
    }

    /// The id of a message sent at `timestamp` (milliseconds).
    pub fn generate_id(timestamp: u128) -> (r: String)
        ensures
            r@ == message_id_for(timestamp),
    {
        "msg_".to_owned().concat(decimal_string(timestamp).as_str())
    }

    /// Records a new, unread message sent at `timestamp` and returns it.
    pub fn send_message(
        &mut self,
        from_emp_id: String,
        to_emp_id: String,
        content: String,
        department: String,
        timestamp: u128,
    ) -> (r: Message)
        ensures
            r@ == (MessageView {
                message_id: message_id_for(timestamp),
                from_emp_id: from_emp_id@,
                to_emp_id: to_emp_id@,
                content: content@,
                department: department@,
                is_read: false,
                created_at: timestamp,
            }),
            final(self)@ == old(self)@.push(r@),
    {
        let m = Message {
            message_id: ChatStore::generate_id(timestamp),
            from_emp_id,
            to_emp_id,
            content,
            department,
            is_read: false,
            created_at: timestamp,
        };
        let ghost before = self@;
        let r = m.duplicate();
        self.messages.push(m);
        assert(self@ =~= before.push(r@));
        r
    }

    /// Every message, in sending order.
    pub fn all_messages(&self) -> (r: Vec<Message>)
        ensures
            message_views(r@) == self@,
    {
        let mut r: Vec<Message> = Vec::new();
        let mut i: usize = 0;
        while i < self.messages.len()
            invariant
                i <= self.messages.len(),
                message_views(r@) == self@.take(i as int),
            decreases self.messages.len() - i,
        {
            let ghost before = r@;
            let m = self.messages[i].duplicate();
            assert(m@ == self@[i as int]);
            r.push(m);
            assert(message_views(r@) =~= message_views(before).push(m@));
            assert(self@.take(i + 1) =~= self@.take(i as int).push(m@));
            i = i + 1;
        }
        assert(self@.take(i as int) =~= self@);
        r
    }

    /// The messages between the two employees, oldest first (equal times in sending order).
    pub fn get_conversation(&self, emp_a: &str, emp_b: &str) -> (r: Vec<Message>)
        ensures
            stable_sorted(
                message_views(r@),
                self@.filter(|m: MessageView| between(m, emp_a@, emp_b@)),
                message_time(),
                false,
            ),
    {
        let ghost pred = |m: MessageView| between(m, emp_a@, emp_b@);
        let mut found: Vec<Message> = Vec::new();
        let mut i: usize = 0;
        while i < self.messages.len()
            invariant
                i <= self.messages.len(),
                pred == (|m: MessageView| between(m, emp_a@, emp_b@)),
                message_views(found@) == self@.take(i as int).filter(pred),
            decreases self.messages.len() - i,
        {
            let m = &self.messages[i];
            proof {
                assert(self@[i as int] == m@);
                assert(self@.take(i + 1) =~= self@.take(i as int).push(m@));
                self@.take(i as int).lemma_filter_push(m@, pred);
            }
            let from = m.from_emp_id.as_str();
            let to = m.to_emp_id.as_str();
            if (text_eq(from, emp_a) && text_eq(to, emp_b)) || (text_eq(from, emp_b) && text_eq(to, emp_a)) {
                let ghost before = found@;
                found.push(m.duplicate());
                assert(message_views(found@) =~= message_views(before).push(m@));
            }
            i = i + 1;
        }
        assert(self@.take(i as int) =~= self@);
        sort_oldest_first(found)
    }

    /// The number of unread messages sent to the employee.
    pub fn get_unread_count(&self, emp_id: &str) -> (r: usize)
        ensures
            r == unread_to(self@, emp_id@),
    {
        let ghost pred = |m: MessageView| m.to_emp_id == emp_id@ && !m.is_read;
        let mut count: usize = 0;
        let mut i: usize = 0;
        while i < self.messages.len()
            invariant
                i <= self.messages.len(),
                pred == (|m: MessageView| m.to_emp_id == emp_id@ && !m.is_read),
                count == self@.take(i as int).filter(pred).len(),
                count <= i,
            decreases self.messages.len() - i,
        {
            let m = &self.messages[i];
            proof {
                assert(self@[i as int] == m@);
                assert(self@.take(i + 1) =~= self@.take(i as int).push(m@));
                self@.take(i as int).lemma_filter_push(m@, pred);
            }
            if text_eq(m.to_emp_id.as_str(), emp_id) && !m.is_read {
                count = count + 1;
            }
            i = i + 1;
        }
        assert(self@.take(i as int) =~= self@);
        count
    }

    /// The number of unread messages from one employee to another.
    pub fn get_unread_from(&self, from_emp_id: &str, to_emp_id: &str) -> (r: usize)
        ensures
            r == unread_from(self@, from_emp_id@, to_emp_id@),
    {
        let ghost pred = |m: MessageView|
            m.from_emp_id == from_emp_id@ && m.to_emp_id == to_emp_id@ && !m.is_read;
        let mut count: usize = 0;
        let mut i: usize = 0;
        while i < self.messages.len()
            invariant
                i <= self.messages.len(),
                pred == (|m: MessageView|
                    m.from_emp_id == from_emp_id@ && m.to_emp_id == to_emp_id@ && !m.is_read),
                count == self@.take(i as int).filter(pred).len(),
                count <= i,
            decreases self.messages.len() - i,
        {
            let m = &self.messages[i];
            proof {
                assert(self@[i as int] == m@);
                assert(self@.take(i + 1) =~= self@.take(i as int).push(m@));
                self@.take(i as int).lemma_filter_push(m@, pred);
            }
            if text_eq(m.from_emp_id.as_str(), from_emp_id) && text_eq(m.to_emp_id.as_str(), to_emp_id)
                && !m.is_read {
                count = count + 1;
            }
            i = i + 1;
        }
        assert(self@.take(i as int) =~= self@);
        count
    }

    /// Marks every message from `other_emp_id` to `reader_emp_id` as read.
    pub fn mark_conversation_read(&mut self, reader_emp_id: &str, other_emp_id: &str)
        ensures
            final(self)@.len() == old(self)@.len(),
            forall|k: int|
                0 <= k < old(self)@.len() ==> #[trigger] final(self)@[k] == if old(self)@[k].to_emp_id
                    == reader_emp_id@ && old(self)@[k].from_emp_id == other_emp_id@ {
                    MessageView { is_read: true, ..old(self)@[k] }
                } else {
                    old(self)@[k]
                },
            unread_from(final(self)@, other_emp_id@, reader_emp_id@) == 0,
    {
        let mut i: usize = 0;
        while i < self.messages.len()
            invariant
                i <= self.messages.len(),
                self@.len() == old(self)@.len(),
                forall|k: int|
                    0 <= k < i ==> #[trigger] self@[k] == if old(self)@[k].to_emp_id == reader_emp_id@
                        && old(self)@[k].from_emp_id == other_emp_id@ {
                        MessageView { is_read: true, ..old(self)@[k] }
                    } else {
                        old(self)@[k]
                    },
                forall|k: int| i <= k < self@.len() ==> #[trigger] self@[k] == old(self)@[k],
            decreases self.messages.len() - i,
        {
            if text_eq(self.messages[i].to_emp_id.as_str(), reader_emp_id) && text_eq(
                self.messages[i].from_emp_id.as_str(),
                other_emp_id,
            ) {
                let ghost before = self@;
                let mut m = self.messages[i].duplicate();
                m.is_read = true;
                self.messages.set(i, m);
                assert(self@ =~= before.update(i as int, MessageView { is_read: true, ..before[i as int] }));
            }
            i = i + 1;
        }
        proof {
            let p = |m: MessageView| m.from_emp_id == other_emp_id@ && m.to_emp_id == reader_emp_id@ && !m.is_read;
            assert forall|k: int| 0 <= k < self@.len() implies !p(#[trigger] self@[k]) by {}
            lemma_filter_none(self@, p);
        }
    }

    /// Everyone the employee has exchanged messages with, each once, in increasing id order.
    pub fn get_conversation_partners(&self, emp_id: &str) -> (r: Vec<String>)
        ensures
            strictly_sorted(string_views(r@)),
            forall|x: Seq<char>|
                string_views(r@).contains(x) <==> exists|i: int|
                    0 <= i < self@.len() && involves(#[trigger] self@[i], emp_id@) && partner_of(self@[i], emp_id@)
                        == x,
    {
        let mut out: Vec<String> = Vec::new();
        let mut i: usize = 0;
        while i < self.messages.len()
            invariant
                i <= self.messages.len(),
                strictly_sorted(string_views(out@)),
                forall|x: Seq<char>|
                    string_views(out@).contains(x) <==> exists|k: int|
                        0 <= k < i && involves(#[trigger] self@[k], emp_id@) && partner_of(self@[k], emp_id@) == x,
            decreases self.messages.len() - i,
        {
            let m = &self.messages[i];
            assert(self@[i as int] == m@);
            let ghost before = string_views(out@);
            if text_eq(m.from_emp_id.as_str(), emp_id) {
                insert_distinct(&mut out, m.to_emp_id.clone());
            } else if text_eq(m.to_emp_id.as_str(), emp_id) {
                insert_distinct(&mut out, m.from_emp_id.clone());
            }
            assert forall|x: Seq<char>|
                string_views(out@).contains(x) <==> exists|k: int|
                    0 <= k < i + 1 && involves(#[trigger] self@[k], emp_id@) && partner_of(self@[k], emp_id@) == x by {
                if before.contains(x) {
                    let k = choose|k: int|
                        0 <= k < i && involves(#[trigger] self@[k], emp_id@) && partner_of(self@[k], emp_id@) == x;
                    assert(0 <= k < i + 1);
                }
                if exists|k: int|
                    0 <= k < i + 1 && involves(#[trigger] self@[k], emp_id@) && partner_of(self@[k], emp_id@) == x {
                    let k = choose|k: int|
                        0 <= k < i + 1 && involves(#[trigger] self@[k], emp_id@) && partner_of(self@[k], emp_id@) == x;
                    if k < i {
                        assert(before.contains(x));
                    }
                }
            }
            i = i + 1;
        }
        out
    }
}

} // verus!
