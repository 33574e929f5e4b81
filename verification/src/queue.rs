//! The housekeeper's action queue: a min-queue of scheduled actions keyed by
//! due time, with class-keyed removal.

use vstd::prelude::*;

verus! {

/// Longest wait between two scheduler wake-ups, in milliseconds (one day).
pub const LONG_SLUMBER: u64 = 86_400_000;

/// The identity of a scheduled job, used for de-duplication and reschedule.
pub enum ActionClass {
    /// Purge of the session cache, access tokens and idle rate limiters.
    Session,
    /// Purge of expired account data.
    Account,
    /// Purge of the configured store at this index.
    Store(usize),
    /// Certificate renewal for the provider with this id.
    Acme(String),
    /// Reload of the enterprise license.
    ReloadLicense,
}

/// A scheduled action: a job identity together with the tick at which it
/// falls due.
pub struct Action {
    pub due: u64,
    pub event: ActionClass,
}

/// Two classes are the same when they are the same variant with equal
/// payload; an `Acme` id is compared by its characters.
pub open spec fn same_class(a: ActionClass, b: ActionClass) -> bool {
    match (a, b) {
        (ActionClass::Session, ActionClass::Session) => true,
        (ActionClass::Account, ActionClass::Account) => true,
        (ActionClass::Store(i), ActionClass::Store(j)) => i == j,
        (ActionClass::Acme(x), ActionClass::Acme(y)) => x@ == y@,
        (ActionClass::ReloadLicense, ActionClass::ReloadLicense) => true,
        _ => false,
    }
}

impl ActionClass {
    /// Class equality, the identity used for removal from the queue.
    pub fn matches_class(&self, other: &ActionClass) -> (r: bool)
        ensures
            r == same_class(*self, *other),
    {
        match (self, other) {
            (ActionClass::Session, ActionClass::Session) => true,
            (ActionClass::Account, ActionClass::Account) => true,
            (ActionClass::Store(i), ActionClass::Store(j)) => i == j,
            (ActionClass::Acme(x), ActionClass::Acme(y)) => x.eq(y),
            (ActionClass::ReloadLicense, ActionClass::ReloadLicense) => true,
            _ => false,
        }
    }
}

/// No two queued actions share a class: the single-slot property.
pub open spec fn distinct_classes(s: Seq<Action>) -> bool {
    forall|i: int, j: int|
        0 <= i < j < s.len() ==> !same_class(s[i].event, s[j].event)
}

/// The queued actions that do not carry class `c`, in order.
pub open spec fn without_class(s: Seq<Action>, c: ActionClass) -> Seq<Action> {
    s.filter(|a: Action| !same_class(a.event, c))
}

/// The queued actions that carry class `c`, in order.
pub open spec fn of_class(s: Seq<Action>, c: ActionClass) -> Seq<Action> {
    s.filter(|a: Action| same_class(a.event, c))
}

/// The queued actions already due at `now`, in order.
pub open spec fn due_actions(s: Seq<Action>, now: u64) -> Seq<Action> {
    s.filter(|a: Action| a.due <= now)
}

pub proof fn lemma_without_class_push(s: Seq<Action>, x: Action, c: ActionClass)
    ensures
        without_class(s.push(x), c) == if same_class(x.event, c) {
            without_class(s, c)
        } else {
            without_class(s, c).push(x)
        },
{
    reveal(Seq::filter);
    assert(s.push(x).drop_last() =~= s);
    assert(s.push(x).last() == x);
}

pub proof fn lemma_of_class_push(s: Seq<Action>, x: Action, c: ActionClass)
    ensures
        of_class(s.push(x), c) == if same_class(x.event, c) {
            of_class(s, c).push(x)
        } else {
            of_class(s, c)
        },
{
    reveal(Seq::filter);
    assert(s.push(x).drop_last() =~= s);
    assert(s.push(x).last() == x);
}

pub proof fn lemma_due_push(s: Seq<Action>, x: Action, now: u64)
    ensures
        due_actions(s.push(x), now) == if x.due <= now {
            due_actions(s, now).push(x)
        } else {
            due_actions(s, now)
        },
{
    reveal(Seq::filter);
    assert(s.push(x).drop_last() =~= s);
    assert(s.push(x).last() == x);
}

pub proof fn lemma_due_add(a: Seq<Action>, b: Seq<Action>, now: u64)
    ensures
        due_actions(a + b, now) == due_actions(a, now) + due_actions(b, now),
    decreases b.len(),
{
    reveal(Seq::filter);
    if b.len() == 0 {
        assert(a + b =~= a);
        assert(due_actions(a, now) + due_actions(b, now) =~= due_actions(a, now));
    } else {
        lemma_due_add(a, b.drop_last(), now);
        lemma_due_push(a + b.drop_last(), b.last(), now);
        assert((a + b.drop_last()).push(b.last()) =~= a + b);
        lemma_due_push(b.drop_last(), b.last(), now);
        if b.last().due <= now {
            assert(due_actions(a, now) + due_actions(b.drop_last(), now).push(b.last())
                =~= (due_actions(a, now) + due_actions(b.drop_last(), now)).push(b.last()));
        }
    }
}

/// Removing one element drops its contribution to the due count.
pub proof fn lemma_due_remove(s: Seq<Action>, m: int, now: u64)
    requires
        0 <= m < s.len(),
    ensures
        due_actions(s.remove(m), now).len() == due_actions(s, now).len() - (if s[m].due <= now {
            1int
        } else {
            0int
        }),
{
    reveal(Seq::filter);
    let front = s.subrange(0, m);
    let back = s.subrange(m + 1, s.len() as int);
    assert(s =~= front + seq![s[m]] + back);
    assert(s.remove(m) =~= front + back);
    let single = seq![s[m]];
    lemma_due_add(front + single, back, now);
    lemma_due_add(front, single, now);
    lemma_due_add(front, back, now);
    assert(single.drop_last() =~= Seq::<Action>::empty());
    assert(due_actions(Seq::<Action>::empty(), now) =~= Seq::<Action>::empty());
    assert(due_actions(single, now) == if s[m].due <= now {
        single
    } else {
        Seq::<Action>::empty()
    }) by {
        assert(single.last() == s[m]);
        lemma_due_push(Seq::<Action>::empty(), s[m], now);
        assert(Seq::<Action>::empty().push(s[m]) =~= single);
    }
    assert(due_actions(s, now) == due_actions(front + single + back, now));
    assert(due_actions(s, now).len() == due_actions(front, now).len() + due_actions(single,
        now).len() + due_actions(back, now).len());
    assert(due_actions(s.remove(m), now).len() == due_actions(front, now).len() + due_actions(
        back,
        now,
    ).len());
}

/// In a queue of pairwise distinct classes, at most one action carries any
/// given class.
pub proof fn lemma_distinct_of_class_at_most_one(s: Seq<Action>, c: ActionClass)
    requires
        distinct_classes(s),
    ensures
        of_class(s, c).len() <= 1,
    decreases s.len(),
{
    reveal(Seq::filter);
    if s.len() > 0 {
        let dl = s.drop_last();
        assert(distinct_classes(dl)) by {
            assert(forall|i: int, j: int|
                0 <= i < j < dl.len() ==> !same_class(#[trigger] dl[i].event,
                #[trigger] dl[j].event)) by {
                assert(forall|i: int| 0 <= i < dl.len() ==> dl[i] == s[i]);
            }
        }
        lemma_distinct_of_class_at_most_one(dl, c);
        if same_class(s.last().event, c) {
            assert(of_class(dl, c).len() == 0) by {
                if of_class(dl, c).len() > 0 {
                    lemma_of_class_witness(dl, c);
                    let i = choose|i: int| 0 <= i < dl.len() && same_class(dl[i].event, c);
                    assert(!same_class(s[i].event, s[s.len() - 1].event));
                    lemma_same_class_trans(s[i].event, c, s.last().event);
                }
            }
        }
    }
}

/// A non-empty class filter names a witness index.
pub proof fn lemma_of_class_witness(s: Seq<Action>, c: ActionClass)
    requires
        of_class(s, c).len() > 0,
    ensures
        exists|i: int| 0 <= i < s.len() && same_class(#[trigger] s[i].event, c),
    decreases s.len(),
{
    reveal(Seq::filter);
    if s.len() > 0 {
        if same_class(s.last().event, c) {
            assert(0 <= s.len() - 1 < s.len() && same_class(s[s.len() - 1].event, c));
        } else {
            lemma_of_class_witness(s.drop_last(), c);
            let i = choose|i: int|
                0 <= i < s.drop_last().len() && same_class(s.drop_last()[i].event, c);
            assert(0 <= i < s.len() && same_class(s[i].event, c));
        }
    }
}

pub proof fn lemma_same_class_trans(a: ActionClass, b: ActionClass, c: ActionClass)
    requires
        same_class(a, b),
        same_class(c, b),
    ensures
        same_class(a, c),
        same_class(c, a),
{
}

/// Removing one action keeps the remaining classes pairwise distinct, and
/// none of them carries the removed action's class.
pub proof fn lemma_distinct_remove(q: Seq<Action>, m: int)
    requires
        distinct_classes(q),
        0 <= m < q.len(),
    ensures
        distinct_classes(q.remove(m)),
        forall|k: int|
            0 <= k < q.remove(m).len() ==> !same_class(
                #[trigger] q.remove(m)[k].event,
                q[m].event,
            ),
{
    let r = q.remove(m);
    assert forall|i: int, j: int| 0 <= i < j < r.len() implies !same_class(
        r[i].event,
        r[j].event,
    ) by {
        let i2: int = if i < m { i } else { i + 1 };
        let j2: int = if j < m { j } else { j + 1 };
        assert(r[i] == q[i2]);
        assert(r[j] == q[j2]);
    }
    assert forall|k: int| 0 <= k < r.len() implies !same_class(r[k].event, q[m].event) by {
        let k2: int = if k < m { k } else { k + 1 };
        assert(r[k] == q[k2]);
        if k2 < m {
            assert(!same_class(q[k2].event, q[m].event));
        } else {
            assert(!same_class(q[m].event, q[k2].event));
            if same_class(q[k2].event, q[m].event) {
                lemma_same_class_trans(q[m].event, q[m].event, q[k2].event);
            }
        }
    }
}

/// Popping an action and re-inserting one of the same class keeps classes
/// pairwise distinct.
pub proof fn lemma_remove_push_same_class_distinct(q: Seq<Action>, m: int, x: Action)
    requires
        distinct_classes(q),
        0 <= m < q.len(),
        same_class(x.event, q[m].event),
    ensures
        distinct_classes(q.remove(m).push(x)),
{
    lemma_distinct_remove(q, m);
    let r = q.remove(m);
    assert forall|i: int, j: int| 0 <= i < j < r.push(x).len() implies !same_class(
        r.push(x)[i].event,
        r.push(x)[j].event,
    ) by {
        if j == r.len() {
            assert(r.push(x)[i] == r[i]);
            assert(r.push(x)[j] == x);
            if same_class(r[i].event, x.event) {
                lemma_same_class_trans(r[i].event, x.event, q[m].event);
            }
        } else {
            assert(r.push(x)[i] == r[i]);
            assert(r.push(x)[j] == r[j]);
        }
    }
}

/// Removal of the class of a freshly inserted action keeps classes distinct.
pub proof fn lemma_without_class_push_distinct(q: Seq<Action>, c: ActionClass, a: Action)
    requires
        distinct_classes(q),
        same_class(a.event, c),
    ensures
        distinct_classes(without_class(q, c).push(a)),
{
    lemma_without_class_distinct_core(q, c);
    let w = without_class(q, c);
    assert forall|i: int, j: int| 0 <= i < j < w.push(a).len() implies !same_class(
        w.push(a)[i].event,
        w.push(a)[j].event,
    ) by {
        if j == w.len() {
            assert(w.push(a)[i] == w[i]);
            assert(w.push(a)[j] == a);
            if same_class(w[i].event, a.event) {
                lemma_same_class_trans(w[i].event, a.event, c);
            }
        } else {
            assert(w.push(a)[i] == w[i]);
            assert(w.push(a)[j] == w[j]);
        }
    }
}

/// Removing a class keeps the remaining classes pairwise distinct, and no
/// kept action carries the removed class.
pub proof fn lemma_without_class_distinct_core(s: Seq<Action>, c: ActionClass)
    requires
        distinct_classes(s),
    ensures
        distinct_classes(without_class(s, c)),
        forall|k: int|
            0 <= k < without_class(s, c).len() ==> !same_class(
                #[trigger] without_class(s, c)[k].event,
                c,
            ),
    decreases s.len(),
{
    reveal(Seq::filter);
    if s.len() > 0 {
        let dl = s.drop_last();
        assert(distinct_classes(dl)) by {
            assert(forall|i: int| 0 <= i < dl.len() ==> dl[i] == s[i]);
        }
        lemma_without_class_distinct_core(dl, c);
        lemma_without_class_push(dl, s.last(), c);
        assert(dl.push(s.last()) =~= s);
        if !same_class(s.last().event, c) {
            let w = without_class(dl, c);
            assert forall|k: int| 0 <= k < w.len() implies !same_class(
                w[k].event,
                s.last().event,
            ) by {
                lemma_without_class_occurs(dl, c, k);
                let j = choose|j: int| 0 <= j < dl.len() && same_class(w[k].event, dl[j].event);
                assert(!same_class(s[j].event, s[s.len() - 1].event));
                if same_class(w[k].event, s.last().event) {
                    lemma_same_class_trans(s[j].event, w[k].event, s.last().event);
                }
            }
        }
    }
}

/// Every class kept by `without_class` occurs in the original sequence.
pub proof fn lemma_without_class_occurs(s: Seq<Action>, c: ActionClass, k: int)
    requires
        0 <= k < without_class(s, c).len(),
    ensures
        exists|j: int|
            0 <= j < s.len() && same_class(without_class(s, c)[k].event, #[trigger] s[j].event),
    decreases s.len(),
{
    reveal(Seq::filter);
    if s.len() > 0 {
        let dl = s.drop_last();
        lemma_without_class_push(dl, s.last(), c);
        assert(dl.push(s.last()) =~= s);
        let w = without_class(s, c);
        let wd = without_class(dl, c);
        if !same_class(s.last().event, c) && k == w.len() - 1 {
            assert(w[k] == s.last());
            assert(same_class(w[k].event, s[s.len() - 1].event));
        } else {
            assert(w[k] == wd[k]);
            lemma_without_class_occurs(dl, c, k);
            let j = choose|j: int| 0 <= j < dl.len() && same_class(wd[k].event, dl[j].event);
            assert(same_class(w[k].event, s[j].event));
        }
    }
}

/// Everything kept by `without_class` lacks the class, so filtering it for
/// that class yields nothing.
pub proof fn lemma_of_class_of_without(s: Seq<Action>, c: ActionClass)
    ensures
        of_class(without_class(s, c), c) =~= Seq::<Action>::empty(),
    decreases s.len(),
{
    reveal(Seq::filter);
    if s.len() > 0 {
        let dl = s.drop_last();
        lemma_of_class_of_without(dl, c);
        if !same_class(s.last().event, c) {
            lemma_of_class_push(without_class(dl, c), s.last(), c);
        }
    }
}

/// The position of the first action with the smallest due time.
pub open spec fn min_index(s: Seq<Action>) -> int
    decreases s.len(),
{
    if s.len() <= 1 {
        0
    } else {
        let m = min_index(s.drop_last());
        if s[s.len() - 1].due < s[m].due {
            s.len() - 1
        } else {
            m
        }
    }
}

pub proof fn lemma_min_index(s: Seq<Action>)
    requires
        s.len() > 0,
    ensures
        0 <= min_index(s) < s.len(),
        forall|i: int| 0 <= i < s.len() ==> s[min_index(s)].due <= #[trigger] s[i].due,
        forall|i: int| 0 <= i < min_index(s) ==> #[trigger] s[i].due > s[min_index(s)].due,
    decreases s.len(),
{
    if s.len() > 1 {
        let dl = s.drop_last();
        lemma_min_index(dl);
        let m1 = min_index(dl);
        assert(dl[m1] == s[m1]);
        assert(forall|i: int| 0 <= i < s.len() - 1 ==> s[i] == dl[i]);
    }
}

/// A priority queue of scheduled actions, popped in due-time order.
pub struct Queue {
    heap: Vec<Action>,
}

impl View for Queue {
    type V = Seq<Action>;

    closed spec fn view(&self) -> Seq<Action> {
        self.heap@
    }
}

impl Default for Queue {
    fn default() -> (r: Queue)
        ensures
            r@ =~= Seq::<Action>::empty(),
    {
        Queue { heap: Vec::new() }
    }
}

/// The delay the scheduler should sleep for: time until the earliest due
/// action, or `LONG_SLUMBER` when nothing is queued.
pub open spec fn spec_wake_up_time(s: Seq<Action>, now: u64) -> u64 {
    if s.len() == 0 {
        LONG_SLUMBER
    } else if s[min_index(s)].due >= now {
        (s[min_index(s)].due - now) as u64
    } else {
        0
    }
}

impl Queue {
    /// Position of the first action with the smallest due time.
    fn min_pos(&self) -> (m: usize)
        requires
            self@.len() > 0,
        ensures
            m as int == min_index(self@),
    {
        let mut m: usize = 0;
        let mut i: usize = 1;
        while i < self.heap.len()
            invariant
                1 <= i <= self.heap@.len(),
                (m as int) < (i as int),
                m as int == min_index(self.heap@.subrange(0, i as int)),
            decreases self.heap@.len() - i,
        {
            proof {
                assert(self.heap@.subrange(0, i as int + 1).drop_last() =~= self.heap@.subrange(
                    0,
                    i as int,
                ));
            }
            if self.heap[i].due < self.heap[m].due {
                m = i;
            }
            i += 1;
        }
        proof {
            assert(self.heap@.subrange(0, self.heap@.len() as int) =~= self.heap@);
        }
        m
    }

    /// Insert an action; the queue does not de-duplicate by itself, the
    /// scheduler removes a class before re-inserting it.
    pub fn schedule(&mut self, due: u64, event: ActionClass)
        ensures
            final(self)@ == old(self)@.push(Action { due, event }),
    {
        self.heap.push(Action { due, event });
    }

    /// Drop every queued action of this class.
    pub fn remove_action(&mut self, event: &ActionClass)
        ensures
            final(self)@ == without_class(old(self)@, *event),
    {
        let ghost orig = self.heap@;
        let mut i: usize = 0;
        let ghost mut j: int = 0;
        while i < self.heap.len()
            invariant
                0 <= j <= orig.len(),
                i as int == without_class(orig.subrange(0, j), *event).len(),
                self.heap@ =~= without_class(orig.subrange(0, j), *event) + orig.subrange(
                    j,
                    orig.len() as int,
                ),
            decreases orig.len() - j,
        {
            proof {
                assert(j < orig.len()) by {
                    assert(self.heap@.len() == i + (orig.len() - j));
                }
                assert(self.heap@[i as int] == orig[j]);
                assert(orig.subrange(0, j + 1) =~= orig.subrange(0, j).push(orig[j]));
                lemma_without_class_push(orig.subrange(0, j), orig[j], *event);
            }
            let ghost pre = self.heap@;
            if self.heap[i].event.matches_class(event) {
                self.heap.remove(i);
                proof {
                    let f = without_class(orig.subrange(0, j), *event);
                    let f1 = without_class(orig.subrange(0, j + 1), *event);
                    assert(f1 == f);
                    assert(self.heap@ == pre.remove(i as int));
                    assert(self.heap@ =~= f1 + orig.subrange(j + 1, orig.len() as int)) by {
                        assert(forall|k: int| 0 <= k < i ==> self.heap@[k] == pre[k]);
                        assert(forall|k: int|
                            i <= k < self.heap@.len() ==> self.heap@[k] == pre[k + 1]);
                    }
                }
            } else {
                i += 1;
                proof {
                    let f = without_class(orig.subrange(0, j), *event);
                    let f1 = without_class(orig.subrange(0, j + 1), *event);
                    assert(f1 == f.push(orig[j]));
                    assert(self.heap@ =~= f1 + orig.subrange(j + 1, orig.len() as int));
                }
            }
            proof {
                j = j + 1;
            }
        }
        proof {
            assert(j == orig.len()) by {
                assert(self.heap@.len() == i + (orig.len() - j));
            }
            assert(orig.subrange(0, orig.len() as int) =~= orig);
            assert(orig.subrange(orig.len() as int, orig.len() as int)
                =~= Seq::<Action>::empty());
            assert(self.heap@ =~= without_class(orig, *event));
        }
    }

    /// The delay until the next due action, or `LONG_SLUMBER` when empty.
    pub fn wake_up_time(&self, now: u64) -> (r: u64)
        ensures
            r == spec_wake_up_time(self@, now),
    {
        if self.heap.len() == 0 {
            return LONG_SLUMBER;
        }
        let m = self.min_pos();
        proof {
            lemma_min_index(self@);
        }
        let due = self.heap[m].due;
        if due >= now {
            due - now
        } else {
            0
        }
    }

    /// Remove and return the earliest action, but only once it has fallen
    /// due; a queue whose earliest action lies in the future yields nothing.
    pub fn pop(&mut self, now: u64) -> (r: Option<Action>)
        ensures
            (r is None) <==> (old(self)@.len() == 0 || old(self)@[min_index(old(self)@)].due
                > now),
            r is None ==> final(self)@ == old(self)@,
            r is Some ==> ({
                let m = min_index(old(self)@);
                &&& old(self)@.len() > 0
                &&& old(self)@[m].due <= now
                &&& r == Some(old(self)@[m])
                &&& final(self)@ == old(self)@.remove(m)
            }),
    {
        if self.heap.len() == 0 {
            return None;
        }
        let m = self.min_pos();
        proof {
            lemma_min_index(self@);
        }
        if self.heap[m].due <= now {
            let a = self.heap.remove(m);
            Some(a)
        } else {
            None
        }
    }

    /// How many actions are queued.
    pub fn len(&self) -> (r: usize)
        ensures
            r == self@.len(),
    {
        self.heap.len()
    }

    /// The queued action at this position, for inspection.
    pub fn get(&self, i: usize) -> (r: &Action)
        requires
            i < self@.len(),
        ensures
            *r == self@[i as int],
    {
        &self.heap[i]
    }
}

/// The wake-up delay is `LONG_SLUMBER` exactly when the queue is empty,
/// provided every queued action falls due within one slumber of `now`.
pub proof fn lemma_wake_up_long_slumber_iff_empty(s: Seq<Action>, now: u64)
    requires
        forall|i: int| 0 <= i < s.len() ==> #[trigger] s[i].due < now + LONG_SLUMBER,
    ensures
        spec_wake_up_time(s, now) == LONG_SLUMBER <==> s.len() == 0,
{
    if s.len() > 0 {
        lemma_min_index(s);
    }
}

} // verus!
