//! Notifications: alerts kept for each employee, newest first, with read marks.

use vstd::prelude::*;
use vstd::string::*;

use crate::order::{
    in_order, lemma_filter_filter, lemma_filter_len_same_multiset, lemma_filter_none, lemma_insert_stable,
    lemma_stable_sorted_same_multiset, lemma_stable_sorted_same_records, lemma_with_key_push, stable_sorted,
};
use crate::text::{decimal, decimal_string, text_eq};

verus! {

/// What an alert is about.
#[derive(Clone, Copy, Debug, PartialEq, Eq, Structural)]
pub enum NotificationType {
    /// Someone assigned a task to you.
    TaskAssigned,
    /// A task you created was completed.
    TaskCompleted,
    /// A new document was added to your department.
    DocumentAdded,
    /// A new employee joined.
    NewEmployee,
}

impl NotificationType {
    /// The display name of a kind of alert.
    pub open spec fn name(self) -> Seq<char> {
        match self {
            NotificationType::TaskAssigned => "TaskAssigned"@,
            NotificationType::TaskCompleted => "TaskCompleted"@,
            NotificationType::DocumentAdded => "DocumentAdded"@,
            NotificationType::NewEmployee => "NewEmployee"@,
        }
    }

    /// The symbol shown beside a kind of alert.
    pub open spec fn symbol(self) -> Seq<char> {
        match self {
            NotificationType::TaskAssigned => "📋"@,
            NotificationType::TaskCompleted => "✅"@,
            NotificationType::DocumentAdded => "📄"@,
            NotificationType::NewEmployee => "👤"@,
        }
    }

    /// The symbol shown beside this kind of alert.
    pub fn emoji(&self) -> (r: &'static str)
        ensures
            r@ == self.symbol(),
    {
        match self {
            NotificationType::TaskAssigned => "📋",
            NotificationType::TaskCompleted => "✅",
            NotificationType::DocumentAdded => "📄",
            NotificationType::NewEmployee => "👤",
        }
    }

    /// The display name of this kind of alert.
    pub fn to_str(&self) -> (r: &'static str)
        ensures
            r@ == self.name(),
    {
        match self {
            NotificationType::TaskAssigned => "TaskAssigned",
            NotificationType::TaskCompleted => "TaskCompleted",
            NotificationType::DocumentAdded => "DocumentAdded",
            NotificationType::NewEmployee => "NewEmployee",
        }
    }
}

/// One alert for one employee.
#[derive(Clone, Debug)]
pub struct Notification {
    pub notification_id: String,
    /// The employee who receives it.
    pub emp_id: String,
    pub notification_type: NotificationType,
    pub title: String,
    pub message: String,
    pub is_read: bool,
    pub created_at: u128,
    /// The task, document, message or employee it concerns.
    pub related_id: String,
}

/// The mathematical model of a notification.
pub struct NotificationView {
    pub notification_id: Seq<char>,
    pub emp_id: Seq<char>,
    pub notification_type: NotificationType,
    pub title: Seq<char>,
    pub message: Seq<char>,
    pub is_read: bool,
    pub created_at: u128,
    pub related_id: Seq<char>,
}

impl View for Notification {
    type V = NotificationView;

    open spec fn view(&self) -> NotificationView {
        NotificationView {
            notification_id: self.notification_id@,
            emp_id: self.emp_id@,
            notification_type: self.notification_type,
            title: self.title@,
            message: self.message@,
            is_read: self.is_read,
            created_at: self.created_at,
            related_id: self.related_id@,
        }
    }
}

impl Notification {
    /// A copy of this record.
    pub fn duplicate(&self) -> (r: Notification)
        ensures
            r@ == self@,
    {
        Notification {
            notification_id: self.notification_id.clone(),
            emp_id: self.emp_id.clone(),
            notification_type: self.notification_type,
            title: self.title.clone(),
            message: self.message.clone(),
            is_read: self.is_read,
            created_at: self.created_at,
            related_id: self.related_id.clone(),
        }
    }
}

/// The models of a sequence of notifications.
pub open spec fn notification_views(s: Seq<Notification>) -> Seq<NotificationView> {
    s.map_values(|n: Notification| n@)
}

/// The creation time of a notification, by which lists are ordered.
pub open spec fn notification_time() -> spec_fn(NotificationView) -> u128 {
    |n: NotificationView| n.created_at
}

/// The id given to a notification created at `timestamp`.
pub open spec fn notification_id_for(timestamp: u128) -> Seq<char> {
    "notif_"@ + decimal(timestamp as nat)
}

/// `i` is the first index of a notification with the given id.
pub open spec fn is_first_notification(s: Seq<NotificationView>, id: Seq<char>, i: int) -> bool {
    &&& 0 <= i < s.len()
    &&& s[i].notification_id == id
    &&& forall|j: int| 0 <= j < i ==> #[trigger] s[j].notification_id != id
}

/// The effect of marking the notification with the given id as read: the
/// first one with that id is marked, nothing else changes.
pub open spec fn mark_read_effect(s: Seq<NotificationView>, id: Seq<char>) -> Seq<NotificationView> {
    if exists|i: int| is_first_notification(s, id, i) {
        let i = choose|i: int| is_first_notification(s, id, i);
        s.update(i, NotificationView { is_read: true, ..s[i] })
    } else {
        s
    }
}

/// Marking a notification as read sets the read mark of the first
/// notification with that id (which stays read if it was already) and
/// changes nothing else; marking it again changes nothing more.
pub proof fn lemma_mark_as_read_marks_first(s: Seq<NotificationView>, id: Seq<char>, i: int)
    requires
        0 <= i < s.len(),
        s[i].notification_id == id,
        forall|j: int| 0 <= j < i ==> #[trigger] s[j].notification_id != id,
    ensures
        mark_read_effect(s, id).len() == s.len(),
        mark_read_effect(s, id)[i].is_read,
        mark_read_effect(s, id)[i] == (NotificationView { is_read: true, ..s[i] }),
        forall|k: int| 0 <= k < s.len() && k != i ==> #[trigger] mark_read_effect(s, id)[k] == s[k],
        mark_read_effect(mark_read_effect(s, id), id) == mark_read_effect(s, id),
{
    assert(is_first_notification(s, id, i));
    let c = choose|k: int| is_first_notification(s, id, k);
    assert(c == i) by {
        if c < i {
            assert(s[c].notification_id != id);
        } else if c > i {
            assert(s[i].notification_id != id);
        }
    }
    let t = mark_read_effect(s, id);
    assert(is_first_notification(t, id, i)) by {
        assert forall|j: int| 0 <= j < i implies #[trigger] t[j].notification_id != id by {
            assert(t[j] == s[j]);
        }
    }
    let c2 = choose|k: int| is_first_notification(t, id, k);
    assert(c2 == i) by {
        if c2 < i {
            assert(t[c2].notification_id != id);
        } else if c2 > i {
            assert(t[i].notification_id != id);
        }
    }
    assert(mark_read_effect(t, id) =~= t);
}

/// Marking an id that no notification carries changes nothing.
pub proof fn lemma_mark_unknown_changes_nothing(s: Seq<NotificationView>, id: Seq<char>)
    requires
        forall|j: int| 0 <= j < s.len() ==> #[trigger] s[j].notification_id != id,
    ensures
        mark_read_effect(s, id) == s,
{
}

/// An employee's list shows exactly the notifications addressed to them.
pub proof fn lemma_list_shows_own(s: Seq<NotificationView>, emp_id: Seq<char>, x: Seq<NotificationView>, n: NotificationView)
    requires
        stable_sorted(x, s.filter(|n: NotificationView| n.emp_id == emp_id), notification_time(), true),
    ensures
        x.contains(n) <==> (s.contains(n) && n.emp_id == emp_id),
{
    let p = |n: NotificationView| n.emp_id == emp_id;
    lemma_stable_sorted_same_records(x, s.filter(p), notification_time(), true, n);
    if s.contains(n) && n.emp_id == emp_id {
        let i = choose|i: int| 0 <= i < s.len() && s[i] == n;
        s.lemma_filter_contains(p, i);
    }
    if s.filter(p).contains(n) {
        s.lemma_filter_contains_rev(p, n);
        let i = choose|i: int| 0 <= i < s.filter(p).len() && s.filter(p)[i] == n;
        s.lemma_filter_pred(p, i);
    }
}

/// An employee's unread count is the number of unread entries in their
/// notification list.
pub proof fn lemma_unread_count_matches_list(s: Seq<NotificationView>, emp_id: Seq<char>, x: Seq<NotificationView>)
    requires
        stable_sorted(x, s.filter(|n: NotificationView| n.emp_id == emp_id), notification_time(), true),
    ensures
        x.filter(|n: NotificationView| !n.is_read).len() == s.filter(
            |n: NotificationView| n.emp_id == emp_id && !n.is_read,
        ).len(),
{
    let mine = |n: NotificationView| n.emp_id == emp_id;
    let unread = |n: NotificationView| !n.is_read;
    let both = |n: NotificationView| n.emp_id == emp_id && !n.is_read;
    lemma_stable_sorted_same_multiset(x, s.filter(mine), notification_time(), true);
    lemma_filter_len_same_multiset(x, s.filter(mine), unread);
    lemma_filter_filter(s, mine, unread, both);
}

/// Newest first, and among equal times in their original order.
fn sort_newest_first(v: Vec<Notification>) -> (r: Vec<Notification>)
    ensures
        stable_sorted(notification_views(r@), notification_views(v@), notification_time(), true),
{
    let ghost key = notification_time();
    let ghost input = notification_views(v@);
    let mut out: Vec<Notification> = Vec::new();
    let mut i: usize = 0;
    assert(notification_views(out@) =~= input.take(0));
    while i < v.len()
        invariant
            i <= v.len(),
            key == notification_time(),
            input == notification_views(v@),
            stable_sorted(notification_views(out@), input.take(i as int), key, true),
        decreases v.len() - i,
    {
        let x = v[i].duplicate();
        let ghost cur = notification_views(out@);
        let mut p: usize = 0;
        while p < out.len() && out[p].created_at >= x.created_at
            invariant
                p <= out.len(),
                cur == notification_views(out@),
                key == notification_time(),
                forall|j: int| 0 <= j < p ==> in_order(key(#[trigger] cur[j]), key(x@), true),
            decreases out.len() - p,
        {
            assert(cur[p as int] == out@[p as int]@);
            p = p + 1;
        }
        proof {
            assert forall|j: int| p <= j < cur.len() implies !in_order(key(#[trigger] cur[j]), key(x@), true) by {
                assert(cur[p as int] == out@[p as int]@);
                assert(in_order(key(cur[p as int]), key(cur[j]), true) || j == p);
            }
            lemma_insert_stable(cur, x@, p as int, key, true);
            lemma_with_key_push(input.take(i as int), x@, key);
            assert(input.take(i + 1) =~= input.take(i as int).push(x@));
        }
        out.insert(p, x);
        assert(notification_views(out@) =~= cur.insert(p as int, x@));
        i = i + 1;
    }
    assert(input.take(i as int) =~= input);
    out
}

/// All notifications, in the order in which they were created.
pub struct NotificationStore {
    notifications: Vec<Notification>,
}

impl View for NotificationStore {
    type V = Seq<NotificationView>;

    closed spec fn view(&self) -> Seq<NotificationView> {
        notification_views(self.notifications@)
    }
}

impl NotificationStore {
    /// A store holding the given notifications.
    pub fn new(existing: Vec<Notification>) -> (r: NotificationStore)
        ensures
            r@ == notification_views(existing@),
    {
        NotificationStore { notifications: existing }
    }

    /// The id of a notification created at `timestamp` (milliseconds).
    pub fn generate_id(timestamp: u128) -> (r: String)
        ensures
            r@ == notification_id_for(timestamp),
    {
        "notif_".to_owned().concat(decimal_string(timestamp).as_str())
    }

    /// Records a new, unread notification created at `timestamp`.
    pub fn create(
        &mut self,
        emp_id: String,
        notification_type: NotificationType,
        title: String,
        message: String,
        related_id: String,
        timestamp: u128,
    )
        ensures
            final(self)@ == old(self)@.push(
                NotificationView {
                    notification_id: notification_id_for(timestamp),
                    emp_id: emp_id@,
                    notification_type,
                    title: title@,
                    message: message@,
                    is_read: false,
                    created_at: timestamp,
                    related_id: related_id@,
                },
            ),
    {
        let n = Notification {
            notification_id: NotificationStore::generate_id(timestamp),
            emp_id,
            notification_type,
            title,
            message,
            is_read: false,
            created_at: timestamp,
            related_id,
        };
        let ghost before = self@;
        let ghost nv = n@;
        self.notifications.push(n);
        assert(self@ =~= before.push(nv));
    }

    /// Every notification, in creation order.
    pub fn all_notifications(&self) -> (r: Vec<Notification>)
        ensures
            notification_views(r@) == self@,
    {
        let mut r: Vec<Notification> = Vec::new();
        let mut i: usize = 0;
        while i < self.notifications.len()
            invariant
                i <= self.notifications.len(),
                notification_views(r@) == self@.take(i as int),
            decreases self.notifications.len() - i,
        {
            let ghost before = r@;
            let n = self.notifications[i].duplicate();
            assert(n@ == self@[i as int]);
            r.push(n);
            assert(notification_views(r@) =~= notification_views(before).push(n@));
            assert(self@.take(i + 1) =~= self@.take(i as int).push(n@));
            i = i + 1;
        }
        assert(self@.take(i as int) =~= self@);
        r
    }

    /// The employee's notifications, newest first (equal times in creation order).
    pub fn get_for_employee(&self, emp_id: &str) -> (r: Vec<Notification>)
        ensures
            stable_sorted(
                notification_views(r@),
                self@.filter(|n: NotificationView| n.emp_id == emp_id@),
                notification_time(),
                true,
            ),
    {
        let ghost pred = |n: NotificationView| n.emp_id == emp_id@;
        let mut mine: Vec<Notification> = Vec::new();
        let mut i: usize = 0;
        while i < self.notifications.len()
            invariant
                i <= self.notifications.len(),
                pred == (|n: NotificationView| n.emp_id == emp_id@),
                notification_views(mine@) == self@.take(i as int).filter(pred),
            decreases self.notifications.len() - i,
        {
            let n = &self.notifications[i];
            proof {
                assert(self@[i as int] == n@);
                assert(self@.take(i + 1) =~= self@.take(i as int).push(n@));
                self@.take(i as int).lemma_filter_push(n@, pred);
            }
            if text_eq(n.emp_id.as_str(), emp_id) {
                let ghost before = mine@;
                mine.push(n.duplicate());
                assert(notification_views(mine@) =~= notification_views(before).push(n@));
            }
            i = i + 1;
        }
        assert(self@.take(i as int) =~= self@);
        sort_newest_first(mine)
    }

    /// The number of the employee's unread notifications.
    pub fn get_unread_count(&self, emp_id: &str) -> (r: usize)
        ensures
            r == self@.filter(|n: NotificationView| n.emp_id == emp_id@ && !n.is_read).len(),
    {
        let ghost pred = |n: NotificationView| n.emp_id == emp_id@ && !n.is_read;
        let mut count: usize = 0;
        let mut i: usize = 0;
        while i < self.notifications.len()
            invariant
                i <= self.notifications.len(),
                pred == (|n: NotificationView| n.emp_id == emp_id@ && !n.is_read),
                count == self@.take(i as int).filter(pred).len(),
                count <= i,
            decreases self.notifications.len() - i,
        {
            let n = &self.notifications[i];
            proof {
                assert(self@[i as int] == n@);
                assert(self@.take(i + 1) =~= self@.take(i as int).push(n@));
                self@.take(i as int).lemma_filter_push(n@, pred);
            }
            if text_eq(n.emp_id.as_str(), emp_id) && !n.is_read {
                count = count + 1;
            }
            i = i + 1;
        }
        assert(self@.take(i as int) =~= self@);
        count
    }

    /// Marks the first notification with the given id as read.
    pub fn mark_as_read(&mut self, notification_id: &str)
        ensures
            final(self)@ == mark_read_effect(old(self)@, notification_id@),
    {
        let mut i: usize = 0;
        while i < self.notifications.len()
            invariant
                i <= self.notifications.len(),
                self@ == old(self)@,
                forall|j: int| 0 <= j < i ==> #[trigger] self@[j].notification_id != notification_id@,
            decreases self.notifications.len() - i,
        {
            if text_eq(self.notifications[i].notification_id.as_str(), notification_id) {
                let ghost before = self@;
                proof {
                    let c = choose|k: int| is_first_notification(before, notification_id@, k);
                    assert(is_first_notification(before, notification_id@, i as int));
                    assert(is_first_notification(before, notification_id@, c));
                    if c < i {
                        assert(before[c].notification_id != notification_id@);
                    } else if c > i {
                        assert(before[i as int].notification_id != notification_id@);
                    }
                }
                let mut n = self.notifications[i].duplicate();
                n.is_read = true;
                self.notifications.set(i, n);
                assert(self@ =~= before.update(i as int, NotificationView { is_read: true, ..before[i as int] }));
                return;
            }
            i = i + 1;
        }
    }

    /// Marks every notification of the employee as read.
    pub fn mark_all_read(&mut self, emp_id: &str)
        ensures
            final(self)@.len() == old(self)@.len(),
            forall|k: int|
                0 <= k < old(self)@.len() ==> #[trigger] final(self)@[k] == if old(self)@[k].emp_id == emp_id@ {
                    NotificationView { is_read: true, ..old(self)@[k] }
                } else {
                    old(self)@[k]
                },
            final(self)@.filter(|n: NotificationView| n.emp_id == emp_id@ && !n.is_read).len() == 0,
    {
        let mut i: usize = 0;
        while i < self.notifications.len()
            invariant
                i <= self.notifications.len(),
                self@.len() == old(self)@.len(),
                forall|k: int|
                    0 <= k < i ==> #[trigger] self@[k] == if old(self)@[k].emp_id == emp_id@ {
                        NotificationView { is_read: true, ..old(self)@[k] }
                    } else {
                        old(self)@[k]
                    },
                forall|k: int| i <= k < self@.len() ==> #[trigger] self@[k] == old(self)@[k],
            decreases self.notifications.len() - i,
        {
            if text_eq(self.notifications[i].emp_id.as_str(), emp_id) {
                let ghost before = self@;
                let mut n = self.notifications[i].duplicate();
                n.is_read = true;
                self.notifications.set(i, n);
                assert(self@ =~= before.update(i as int, NotificationView { is_read: true, ..before[i as int] }));
            }
            i = i + 1;
        }
        proof {
            let p = |n: NotificationView| n.emp_id == emp_id@ && !n.is_read;
            assert forall|k: int| 0 <= k < self@.len() implies !p(#[trigger] self@[k]) by {}
            lemma_filter_none(self@, p);
        }
    }
}

} // verus!
