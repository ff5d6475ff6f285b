use vstd::prelude::*;
use std::collections::VecDeque;
use crate::civ::CivId;

verus! {

/// Default capacity of an action queue.
pub const DEFAULT_MAX_QUEUE_SIZE: usize = 20;
/// Default number of actions carried out per turn.
pub const DEFAULT_ACTIONS_PER_TURN: usize = 3;
/// Default number of retries of a failed action.
pub const DEFAULT_MAX_RETRIES: u8 = 2;

/// An action waiting in a civilization's queue, with when and how often to try it.
/// `queue_priority` orders the queue: higher values go first; `None` stands for a
/// priority that compares with no other (a NaN), so it ranks neither above nor below any.
#[derive(Debug, Clone)]
pub struct QueuedAction<A> {
    pub action: A,
    pub turn_queued: u32,
    pub execution_turn: Option<u32>,
    pub retry_count: u8,
    pub max_retries: u8,
    pub queue_priority: Option<i64>,
}

/// A civilization's queue of AI actions, kept in priority order.
#[derive(Debug, Clone)]
pub struct ActionQueue<A> {
    pub civilization_id: CivId,
    pub queued_actions: VecDeque<QueuedAction<A>>,
    pub max_queue_size: usize,
    pub current_turn_processed: usize,
    pub actions_per_turn_limit: usize,
}

/// Whether an action may run on `turn`: it has no set turn, or its turn has come.
pub open spec fn is_ready<A>(q: QueuedAction<A>, turn: u32) -> bool {
    match q.execution_turn {
        None => true,
        Some(t) => t <= turn,
    }
}

/// Whether priority `a` is below priority `b`: both are numbers and `a < b`.
pub open spec fn ranks_below(a: Option<i64>, b: Option<i64>) -> bool {
    match (a, b) {
        (Some(x), Some(y)) => x < y,
        _ => false,
    }
}

/// Whether priority `a` is below priority `b`.
pub fn is_lower_priority(a: Option<i64>, b: Option<i64>) -> (r: bool)
    ensures
        r == ranks_below(a, b),
{
    match (a, b) {
        (Some(x), Some(y)) => x < y,
        _ => false,
    }
}

/// The first index at or after `i` whose entry has a priority below `p`, else the length.
pub open spec fn insert_position_from<A>(s: Seq<QueuedAction<A>>, p: Option<i64>, i: int) -> int
    decreases s.len() - i,
{
    if i < 0 || i >= s.len() {
        s.len() as int
    } else if ranks_below(s[i].queue_priority, p) {
        i
    } else {
        insert_position_from(s, p, i + 1)
    }
}

/// Where an action of priority `p` is inserted: before the first entry of lower priority.
pub open spec fn insert_position<A>(s: Seq<QueuedAction<A>>, p: Option<i64>) -> int {
    insert_position_from(s, p, 0)
}

/// The first index at or after `i` of an entry ready on `turn`.
pub open spec fn first_ready_from<A>(s: Seq<QueuedAction<A>>, turn: u32, i: int) -> Option<int>
    decreases s.len() - i,
{
    if i < 0 || i >= s.len() {
        None
    } else if is_ready(s[i], turn) {
        Some(i)
    } else {
        first_ready_from(s, turn, i + 1)
    }
}

/// The first entry ready on `turn`.
pub open spec fn first_ready<A>(s: Seq<QueuedAction<A>>, turn: u32) -> Option<int> {
    first_ready_from(s, turn, 0)
}

/// How many entries are ready on `turn`.
pub open spec fn ready_count<A>(s: Seq<QueuedAction<A>>, turn: u32) -> nat
    decreases s.len(),
{
    if s.len() == 0 {
        0
    } else {
        ready_count(s.drop_last(), turn) + if is_ready(s.last(), turn) { 1nat } else { 0nat }
    }
}

/// Priorities never increase from front to back: no entry is below a later one.
pub open spec fn priority_sorted<A>(s: Seq<QueuedAction<A>>) -> bool {
    forall|i: int, j: int| 0 <= i < j < s.len() ==> !ranks_below((#[trigger] s[i]).queue_priority, (#[trigger] s[j]).queue_priority)
}

/// Every entry's priority is a number.
pub open spec fn all_ordered<A>(s: Seq<QueuedAction<A>>) -> bool {
    forall|i: int| 0 <= i < s.len() ==> (#[trigger] s[i]).queue_priority is Some
}

/// The index found by `insert_position_from` lies in `[i, len]`; entries before it from
/// `i` on are not below `p`, and the entry at it (if any) is below `p`.
pub proof fn lemma_insert_position_from<A>(s: Seq<QueuedAction<A>>, p: Option<i64>, i: int)
    requires
        0 <= i <= s.len(),
    ensures
        i <= insert_position_from(s, p, i) <= s.len(),
        forall|k: int| i <= k < insert_position_from(s, p, i) ==> !ranks_below((#[trigger] s[k]).queue_priority, p),
        insert_position_from(s, p, i) < s.len() ==> ranks_below(s[insert_position_from(s, p, i)].queue_priority, p),
    decreases s.len() - i,
{
    if i < s.len() && !ranks_below(s[i].queue_priority, p) {
        lemma_insert_position_from(s, p, i + 1);
    }
}

/// The index found by `first_ready_from` is ready and no earlier entry from `i` is;
/// when there is none, no entry from `i` on is ready.
pub proof fn lemma_first_ready_from<A>(s: Seq<QueuedAction<A>>, turn: u32, i: int)
    requires
        0 <= i <= s.len(),
    ensures
        match first_ready_from(s, turn, i) {
            Some(k) => i <= k < s.len() && is_ready(s[k], turn)
                && forall|j: int| i <= j < k ==> !is_ready(#[trigger] s[j], turn),
            None => forall|j: int| i <= j < s.len() ==> !is_ready(#[trigger] s[j], turn),
        },
    decreases s.len() - i,
{
    if i < s.len() && !is_ready(s[i], turn) {
        lemma_first_ready_from(s, turn, i + 1);
    }
}

/// The queue entries after `queue_action_with_settings` adds `item` to `s`: unchanged
/// when full, otherwise `item` inserted before the first entry of lower priority.
pub open spec fn queued_after<A>(s: Seq<QueuedAction<A>>, max: usize, item: QueuedAction<A>) -> Seq<QueuedAction<A>> {
    if s.len() >= max {
        s
    } else {
        s.insert(insert_position(s, item.queue_priority), item)
    }
}

/// Queueing keeps a queue in priority order: priorities never increase from front to back.
pub proof fn lemma_queue_keeps_priority_order<A>(s: Seq<QueuedAction<A>>, max: usize, item: QueuedAction<A>)
    requires
        priority_sorted(s),
    ensures
        priority_sorted(queued_after(s, max, item)),
{
    if s.len() < max {
        let p = item.queue_priority;
        let k = insert_position(s, p);
        lemma_insert_position_from(s, p, 0);
        let r = s.insert(k, item);
        assert forall|i: int, j: int| 0 <= i < j < r.len() implies !ranks_below((#[trigger] r[i]).queue_priority, (#[trigger] r[j]).queue_priority) by {
            if j < k {
            } else if j == k {
                assert(r[i] == s[i]);
            } else if i == k {
                assert(r[j] == s[j - 1]);
                assert(ranks_below(s[k].queue_priority, p));
                if j - 1 > k {
                    assert(!ranks_below(s[k].queue_priority, s[j - 1].queue_priority));
                }
            } else if i < k {
                assert(r[i] == s[i]);
                assert(r[j] == s[j - 1]);
            } else {
                assert(r[i] == s[i - 1]);
                assert(r[j] == s[j - 1]);
            }
        }
    }
}

/// Queueing never grows a queue past its capacity; below capacity it adds exactly one entry.
pub proof fn lemma_queue_respects_capacity<A>(s: Seq<QueuedAction<A>>, max: usize, item: QueuedAction<A>)
    requires
        s.len() <= max,
    ensures
        queued_after(s, max, item).len() <= max,
        s.len() < max ==> queued_after(s, max, item).len() == s.len() + 1,
        s.len() == max ==> queued_after(s, max, item) == s,
{
    if s.len() < max {
        lemma_insert_position_from(s, item.queue_priority, 0);
    }
}

/// When every priority is a number, a new entry goes behind every entry of the same or
/// higher priority and ahead of every entry of lower priority; the entries already queued
/// keep their order. So among equal priorities the queue is first in, first out.
pub proof fn lemma_queue_is_fifo_within_priority<A>(s: Seq<QueuedAction<A>>, max: usize, item: QueuedAction<A>)
    requires
        priority_sorted(s),
        all_ordered(s),
        item.queue_priority is Some,
        s.len() < max,
    ensures
        ({
            let r = queued_after(s, max, item);
            let k = insert_position(s, item.queue_priority);
            &&& 0 <= k <= s.len()
            &&& r[k] == item
            &&& forall|j: int| 0 <= j < k ==> r[j] == s[j] && !ranks_below((#[trigger] s[j]).queue_priority, item.queue_priority)
            &&& forall|j: int| k < j < r.len() ==> r[j] == s[j - 1] && ranks_below((#[trigger] s[j - 1]).queue_priority, item.queue_priority)
        }),
{
    let p = item.queue_priority;
    let k = insert_position(s, p);
    lemma_insert_position_from(s, p, 0);
    let r = s.insert(k, item);
    assert forall|j: int| k < j < r.len() implies r[j] == s[j - 1] && ranks_below((#[trigger] s[j - 1]).queue_priority, p) by {
        assert(ranks_below(s[k].queue_priority, p));
        if j - 1 > k {
            assert(!ranks_below(s[k].queue_priority, s[j - 1].queue_priority));
            assert(s[j - 1].queue_priority is Some);
        }
    }
}

/// Taking an entry out of a queue in priority order leaves it in priority order.
pub proof fn lemma_dequeue_keeps_priority_order<A>(s: Seq<QueuedAction<A>>, k: int)
    requires
        priority_sorted(s),
        0 <= k < s.len(),
    ensures
        priority_sorted(s.remove(k)),
{
    let r = s.remove(k);
    assert forall|i: int, j: int| 0 <= i < j < r.len() implies !ranks_below((#[trigger] r[i]).queue_priority, (#[trigger] r[j]).queue_priority) by {
        let si = if i < k { i } else { i + 1 };
        let sj = if j < k { j } else { j + 1 };
        assert(r[i] == s[si]);
        assert(r[j] == s[sj]);
    }
}

/// In a queue in priority order whose entries are all ready, the entry taken next is
/// below no other entry of the queue.
pub proof fn lemma_dequeue_takes_highest_priority<A>(s: Seq<QueuedAction<A>>, turn: u32)
    requires
        priority_sorted(s),
        s.len() > 0,
        forall|i: int| 0 <= i < s.len() ==> is_ready(#[trigger] s[i], turn),
    ensures
        first_ready(s, turn) == Some(0int),
        forall|i: int| 0 <= i < s.len() ==> !ranks_below(s[0].queue_priority, (#[trigger] s[i]).queue_priority),
{
    assert forall|i: int| 0 <= i < s.len() implies !ranks_below(s[0].queue_priority, (#[trigger] s[i]).queue_priority) by {
        if i > 0 {
            assert(!ranks_below(s[0].queue_priority, s[i].queue_priority));
        }
    }
}

impl<A> ActionQueue<A> {
    /// An empty queue for `civilization_id` with the default limits.
    pub fn new(civilization_id: CivId) -> (q: ActionQueue<A>)
        ensures
            q.civilization_id == civilization_id,
            q.queued_actions@ == Seq::<QueuedAction<A>>::empty(),
            q.max_queue_size == DEFAULT_MAX_QUEUE_SIZE,
            q.current_turn_processed == 0,
            q.actions_per_turn_limit == DEFAULT_ACTIONS_PER_TURN,
    {
        ActionQueue {
            civilization_id,
            queued_actions: VecDeque::new(),
            max_queue_size: DEFAULT_MAX_QUEUE_SIZE,
            current_turn_processed: 0,
            actions_per_turn_limit: DEFAULT_ACTIONS_PER_TURN,
        }
    }

    /// Queues `action` with priority `priority` for immediate execution, with the
    /// default number of retries.
    pub fn queue_action(&mut self, action: A, priority: Option<i64>, current_turn: u32)
        ensures
            final(self).civilization_id == old(self).civilization_id,
            final(self).max_queue_size == old(self).max_queue_size,
            final(self).current_turn_processed == old(self).current_turn_processed,
            final(self).actions_per_turn_limit == old(self).actions_per_turn_limit,
            final(self).queued_actions@ == queued_after(old(self).queued_actions@, old(self).max_queue_size,
                QueuedAction { action, turn_queued: current_turn, execution_turn: None, retry_count: 0,
                    max_retries: DEFAULT_MAX_RETRIES, queue_priority: priority }),
    {
        self.queue_action_with_settings(action, priority, current_turn, None, DEFAULT_MAX_RETRIES);
    }

    /// Queues `action` with priority `priority`; nothing happens when the queue is full.
    /// The action goes after every entry of the same or higher priority and before the
    /// first entry of lower priority.
    pub fn queue_action_with_settings(
        &mut self,
        action: A,
        priority: Option<i64>,
        current_turn: u32,
        execution_turn: Option<u32>,
        max_retries: u8,
    )
        ensures
            final(self).civilization_id == old(self).civilization_id,
            final(self).max_queue_size == old(self).max_queue_size,
            final(self).current_turn_processed == old(self).current_turn_processed,
            final(self).actions_per_turn_limit == old(self).actions_per_turn_limit,
            final(self).queued_actions@ == queued_after(old(self).queued_actions@, old(self).max_queue_size,
                QueuedAction { action, turn_queued: current_turn, execution_turn, retry_count: 0,
                    max_retries, queue_priority: priority }),
    {
        if self.queued_actions.len() >= self.max_queue_size {
            return;
        }
        let queued_action = QueuedAction {
            action,
            turn_queued: current_turn,
            execution_turn,
            retry_count: 0,
            max_retries,
            queue_priority: priority,
        };
        let mut i: usize = 0;
        let n = self.queued_actions.len();
        while i < n
            invariant
                n == self.queued_actions@.len(),
                *self == *old(self),
                i <= n,
                insert_position(self.queued_actions@, priority) == insert_position_from(self.queued_actions@, priority, i as int),
            ensures
                i <= n,
                *self == *old(self),
                insert_position(self.queued_actions@, priority) == i,
            decreases n - i,
        {
            if is_lower_priority(self.queued_actions[i].queue_priority, priority) {
                break;
            }
            i = i + 1;
        }
        self.queued_actions.insert(i, queued_action);
    }

    /// Removes and returns the first action that is ready on `current_turn`; `None`
    /// (and no change) when none is.
    pub fn dequeue_next_action(&mut self, current_turn: u32) -> (r: Option<QueuedAction<A>>)
        ensures
            final(self).civilization_id == old(self).civilization_id,
            final(self).max_queue_size == old(self).max_queue_size,
            final(self).current_turn_processed == old(self).current_turn_processed,
            final(self).actions_per_turn_limit == old(self).actions_per_turn_limit,
            match first_ready(old(self).queued_actions@, current_turn) {
                Some(k) => r == Some(old(self).queued_actions@[k])
                    && final(self).queued_actions@ == old(self).queued_actions@.remove(k),
                None => r.is_none() && final(self).queued_actions@ == old(self).queued_actions@,
            },
    {
        let mut i: usize = 0;
        let n = self.queued_actions.len();
        while i < n
            invariant
                n == self.queued_actions@.len(),
                *self == *old(self),
                i <= n,
                first_ready(self.queued_actions@, current_turn) == first_ready_from(self.queued_actions@, current_turn, i as int),
            decreases n - i,
        {
            let ready = match self.queued_actions[i].execution_turn {
                None => true,
                Some(turn) => turn <= current_turn,
            };
            if ready {
                return self.queued_actions.remove(i);
            }
            i = i + 1;
        }
        None
    }

    /// The first action that is ready on `current_turn`, without removing it.
    pub fn peek_next_action(&self, current_turn: u32) -> (r: Option<&QueuedAction<A>>)
        ensures
            match first_ready(self.queued_actions@, current_turn) {
                Some(k) => r == Some(&self.queued_actions@[k]),
                None => r.is_none(),
            },
    {
        let mut i: usize = 0;
        let n = self.queued_actions.len();
        while i < n
            invariant
                n == self.queued_actions@.len(),
                i <= n,
                first_ready(self.queued_actions@, current_turn) == first_ready_from(self.queued_actions@, current_turn, i as int),
            decreases n - i,
        {
            if match self.queued_actions[i].execution_turn {
                None => true,
                Some(turn) => turn <= current_turn,
            } {
                return Some(&self.queued_actions[i]);
            }
            i = i + 1;
        }
        None
    }

    /// Puts a failed action back at the end of the queue, to be retried next turn, as
    /// long as it has retries left; otherwise the action is dropped.
    pub fn requeue_failed_action(&mut self, action: QueuedAction<A>, current_turn: u32)
        requires
            action.retry_count < u8::MAX,
            action.retry_count + 1 <= action.max_retries ==> current_turn < u32::MAX,
        ensures
            final(self).civilization_id == old(self).civilization_id,
            final(self).max_queue_size == old(self).max_queue_size,
            final(self).current_turn_processed == old(self).current_turn_processed,
            final(self).actions_per_turn_limit == old(self).actions_per_turn_limit,
            final(self).queued_actions@ == (if action.retry_count + 1 <= action.max_retries {
                old(self).queued_actions@.push(QueuedAction {
                    retry_count: (action.retry_count + 1) as u8,
                    execution_turn: Some((current_turn + 1) as u32),
                    ..action
                })
            } else {
                old(self).queued_actions@
            }),
    {
        let mut action = action;
        action.retry_count = action.retry_count + 1;
        if action.retry_count <= action.max_retries {
            action.execution_turn = Some(current_turn + 1);
            self.queued_actions.push_back(action);
        }
    }

    /// How many actions wait in the queue.
    pub fn get_queue_length(&self) -> (n: usize)
        ensures
            n == self.queued_actions@.len(),
    {
        self.queued_actions.len()
    }

    /// Whether another action fits in the queue.
    pub fn has_capacity(&self) -> (b: bool)
        ensures
            b == (self.queued_actions@.len() < self.max_queue_size),
    {
        self.queued_actions.len() < self.max_queue_size
    }

    /// Drops every queued action.
    pub fn clear_queue(&mut self)
        ensures
            final(self).civilization_id == old(self).civilization_id,
            final(self).max_queue_size == old(self).max_queue_size,
            final(self).current_turn_processed == old(self).current_turn_processed,
            final(self).actions_per_turn_limit == old(self).actions_per_turn_limit,
            final(self).queued_actions@ == Seq::<QueuedAction<A>>::empty(),
    {
        self.queued_actions.clear();
    }

    /// How many actions are ready on `current_turn`.
    pub fn get_ready_actions_count(&self, current_turn: u32) -> (n: usize)
        ensures
            n == ready_count(self.queued_actions@, current_turn),
    {
        let mut count: usize = 0;
        let mut i: usize = 0;
        let n = self.queued_actions.len();
        while i < n
            invariant
                n == self.queued_actions@.len(),
                i <= n,
                count == ready_count(self.queued_actions@.take(i as int), current_turn),
                count <= i,
            decreases n - i,
        {
            proof {
                assert(self.queued_actions@.take(i + 1).drop_last() =~= self.queued_actions@.take(i as int));
            }
            if match self.queued_actions[i].execution_turn {
                None => true,
                Some(turn) => turn <= current_turn,
            } {
                count = count + 1;
            }
            i = i + 1;
        }
        proof {
            assert(self.queued_actions@.take(n as int) =~= self.queued_actions@);
        }
        count
    }

    /// Starts a new turn's count of carried-out actions.
    pub fn reset_turn_processing(&mut self)
        ensures
            *final(self) == (ActionQueue { current_turn_processed: 0, ..*old(self) }),
    {
        self.current_turn_processed = 0;
    }

    /// Whether the per-turn limit allows another action.
    pub fn can_process_more_actions(&self) -> (b: bool)
        ensures
            b == (self.current_turn_processed < self.actions_per_turn_limit),
    {
        self.current_turn_processed < self.actions_per_turn_limit
    }

    /// Counts one more carried-out action this turn.
    pub fn increment_turn_processing(&mut self)
        requires
            old(self).current_turn_processed < usize::MAX,
        ensures
            *final(self) == (ActionQueue { current_turn_processed: (old(self).current_turn_processed + 1) as usize, ..*old(self) }),
    {
        self.current_turn_processed = self.current_turn_processed + 1;
    }
}

/// Why a queued action could not be carried out.
#[derive(Debug, Clone, Copy, PartialEq, Eq, Structural)]
pub enum ActionExecutionError {
    InsufficientResources,
    InvalidTarget,
    TileOccupied,
    DiplomaticRestriction,
    TechnicalFailure,
}

/// Carries out a queued action. Every kind of action is accepted as it stands.
pub fn execute_queued_action<A>(queued_action: &QueuedAction<A>) -> (r: Result<(), ActionExecutionError>)
    ensures
        r is Ok,
{
    Ok(())
}

/// Taking up to `n` ready actions from `s`, one after the other, each time the first
/// ready one: the actions taken, in order, and what stays in the queue.
pub open spec fn drain_ready<A>(s: Seq<QueuedAction<A>>, turn: u32, n: nat) -> (Seq<QueuedAction<A>>, Seq<QueuedAction<A>>)
    decreases n,
{
    if n == 0 {
        (Seq::empty(), s)
    } else {
        match first_ready(s, turn) {
            None => (Seq::empty(), s),
            Some(k) => {
                let rest = drain_ready(s.remove(k), turn, (n - 1) as nat);
                (seq![s[k]] + rest.0, rest.1)
            },
        }
    }
}

/// One turn of a civilization's queue: the turn's count restarts, then ready actions
/// are taken from the front (each time the first ready one) and carried out, up to
/// the per-turn limit. Returns the actions carried out, in order.
pub fn process_civilization_action_queue<A>(action_queue: &mut ActionQueue<A>, current_turn: u32) -> (done: Vec<QueuedAction<A>>)
    ensures
        final(action_queue).civilization_id == old(action_queue).civilization_id,
        final(action_queue).max_queue_size == old(action_queue).max_queue_size,
        final(action_queue).actions_per_turn_limit == old(action_queue).actions_per_turn_limit,
        final(action_queue).current_turn_processed == done@.len(),
        done@ == drain_ready(old(action_queue).queued_actions@, current_turn, old(action_queue).actions_per_turn_limit as nat).0,
        final(action_queue).queued_actions@
            == drain_ready(old(action_queue).queued_actions@, current_turn, old(action_queue).actions_per_turn_limit as nat).1,
{
    let ghost orig = action_queue.queued_actions@;
    let ghost limit = action_queue.actions_per_turn_limit as nat;
    action_queue.reset_turn_processing();
    let mut done: Vec<QueuedAction<A>> = Vec::new();
    let mut failed: Vec<QueuedAction<A>> = Vec::new();
    while action_queue.can_process_more_actions()
        invariant_except_break
            action_queue.current_turn_processed == done@.len(),
            done@.len() <= limit,
        invariant
            action_queue.civilization_id == old(action_queue).civilization_id,
            action_queue.max_queue_size == old(action_queue).max_queue_size,
            action_queue.actions_per_turn_limit == limit,
            failed@.len() == 0,
            done@ + drain_ready(action_queue.queued_actions@, current_turn, (limit - done@.len()) as nat).0
                == drain_ready(orig, current_turn, limit).0,
            drain_ready(action_queue.queued_actions@, current_turn, (limit - done@.len()) as nat).1
                == drain_ready(orig, current_turn, limit).1,
        ensures
            action_queue.civilization_id == old(action_queue).civilization_id,
            action_queue.max_queue_size == old(action_queue).max_queue_size,
            action_queue.actions_per_turn_limit == limit,
            failed@.len() == 0,
            action_queue.current_turn_processed == done@.len(),
            done@ == drain_ready(orig, current_turn, limit).0,
            action_queue.queued_actions@ == drain_ready(orig, current_turn, limit).1,
        decreases limit - done@.len(),
    {
        let ghost before = action_queue.queued_actions@;
        let ghost remaining = (limit - done@.len()) as nat;
        match action_queue.dequeue_next_action(current_turn) {
            Some(queued_action) => {
                proof {
                    let k = first_ready(before, current_turn).unwrap();
                    assert(drain_ready(before, current_turn, remaining).0
                        == seq![before[k]] + drain_ready(before.remove(k), current_turn, (remaining - 1) as nat).0);
                }
                let result = execute_queued_action(&queued_action);
                if result.is_ok() {
                    action_queue.increment_turn_processing();
                    done.push(queued_action);
                    proof {
                        let k = first_ready(before, current_turn).unwrap();
                        assert(done@ + drain_ready(action_queue.queued_actions@, current_turn, (limit - done@.len()) as nat).0
                            =~= drain_ready(orig, current_turn, limit).0);
                    }
                } else {
                    failed.push(queued_action);
                }
            },
            None => {
                proof {
                    assert(drain_ready(before, current_turn, remaining).0 =~= Seq::<QueuedAction<A>>::empty());
                    assert(done@ =~= done@ + drain_ready(before, current_turn, remaining).0);
                }
                break;
            },
        }
    }
    proof {
        if action_queue.current_turn_processed >= limit {
            assert(drain_ready(action_queue.queued_actions@, current_turn, 0).0 =~= Seq::<QueuedAction<A>>::empty());
            assert(done@ =~= done@ + drain_ready(action_queue.queued_actions@, current_turn, 0).0);
        }
    }
    while failed.len() > 0
        invariant
            failed@.len() == 0,
            action_queue.civilization_id == old(action_queue).civilization_id,
            action_queue.max_queue_size == old(action_queue).max_queue_size,
            action_queue.actions_per_turn_limit == limit,
            action_queue.current_turn_processed == done@.len(),
            done@ == drain_ready(orig, current_turn, limit).0,
            action_queue.queued_actions@ == drain_ready(orig, current_turn, limit).1,
        decreases failed@.len(),
    {
        let failed_action = failed.remove(0);
        action_queue.requeue_failed_action(failed_action, current_turn);
    }
    done
}

/// The magnitude bits of an `f32` bit pattern: the pattern without its sign bit.
pub open spec fn magnitude_bits(bits: u32) -> int {
    if bits >= 0x8000_0000u32 { bits - 0x8000_0000u32 } else { bits as int }
}

/// The key by which a queue orders a priority given as the bit pattern of an `f32`:
/// `None` for a NaN (magnitude bits above those of infinity), which compares with
/// nothing; otherwise the pattern itself for a non-negative value, minus its magnitude
/// bits for a negative one. Under the IEEE 754 layout this orders the other values as `<`
/// on `f32` does, with `-0.0` and `+0.0` equal.
pub fn priority_order_key(bits: u32) -> (key: Option<i64>)
    ensures
        key == (if magnitude_bits(bits) > 0x7f80_0000 {
            None
        } else if bits >= 0x8000_0000u32 {
            Some(-(bits - 0x8000_0000u32) as i64)
        } else {
            Some(bits as i64)
        }),
{
    let magnitude: u32 = if bits >= 0x8000_0000u32 { bits - 0x8000_0000u32 } else { bits };
    if magnitude > 0x7f80_0000u32 {
        None
    } else if bits >= 0x8000_0000u32 {
        Some(-(magnitude as i64))
    } else {
        Some(bits as i64)
    }
}

/// Two queues agree in everything but their entries.
pub open spec fn same_settings<A>(a: ActionQueue<A>, b: ActionQueue<A>) -> bool {
    &&& a.civilization_id == b.civilization_id
    &&& a.max_queue_size == b.max_queue_size
    &&& a.current_turn_processed == b.current_turn_processed
    &&& a.actions_per_turn_limit == b.actions_per_turn_limit
}

/// The index of the first queue that belongs to `civ`.
pub open spec fn queue_index_of<A>(queues: Seq<ActionQueue<A>>, civ: CivId) -> Option<int>
    decreases queues.len(),
{
    if queues.len() == 0 {
        None
    } else {
        match queue_index_of(queues.drop_last(), civ) {
            Some(i) => Some(i),
            None => if queues.last().civilization_id == civ { Some(queues.len() - 1) } else { None },
        }
    }
}

proof fn lemma_queue_index_of<A>(queues: Seq<ActionQueue<A>>, civ: CivId)
    ensures
        match queue_index_of(queues, civ) {
            Some(i) => 0 <= i < queues.len() && queues[i].civilization_id == civ
                && forall|j: int| 0 <= j < i ==> (#[trigger] queues[j]).civilization_id != civ,
            None => forall|j: int| 0 <= j < queues.len() ==> (#[trigger] queues[j]).civilization_id != civ,
        },
    decreases queues.len(),
{
    if queues.len() > 0 {
        let prefix = queues.drop_last();
        lemma_queue_index_of(prefix, civ);
        assert(forall|j: int| 0 <= j < prefix.len() ==> prefix[j] == queues[j]);
    }
}

/// The first queue in `queues` that belongs to `civ`.
pub fn find_queue_index<A>(queues: &Vec<ActionQueue<A>>, civ: CivId) -> (r: Option<usize>)
    ensures
        match r {
            Some(i) => queue_index_of(queues@, civ) == Some(i as int),
            None => queue_index_of(queues@, civ).is_none(),
        },
{
    proof { lemma_queue_index_of(queues@, civ); }
    let mut i: usize = 0;
    while i < queues.len()
        invariant
            i <= queues@.len(),
            forall|j: int| 0 <= j < i ==> (#[trigger] queues@[j]).civilization_id != civ,
            match queue_index_of(queues@, civ) {
                Some(k) => 0 <= k < queues@.len() && queues@[k].civilization_id == civ
                    && forall|j: int| 0 <= j < k ==> (#[trigger] queues@[j]).civilization_id != civ,
                None => forall|j: int| 0 <= j < queues@.len() ==> (#[trigger] queues@[j]).civilization_id != civ,
            },
        decreases queues@.len() - i,
    {
        if queues[i].civilization_id.0 == civ.0 {
            return Some(i);
        }
        i = i + 1;
    }
    None
}

/// Puts an urgent `action` with priority `priority` into the queue of `civ`, to run as
/// soon as possible with a single retry. Nothing changes when `civ` has no queue or its
/// queue is full.
pub fn add_urgent_action_to_queue<A>(civ_id: CivId, action: A, priority: Option<i64>, queues: &mut Vec<ActionQueue<A>>, current_turn: u32)
    ensures
        final(queues)@.len() == old(queues)@.len(),
        match queue_index_of(old(queues)@, civ_id) {
            None => final(queues)@ == old(queues)@,
            Some(k) => {
                &&& forall|j: int| 0 <= j < old(queues)@.len() && j != k ==> final(queues)@[j] == old(queues)@[j]
                &&& same_settings(final(queues)@[k], old(queues)@[k])
                &&& final(queues)@[k].queued_actions@ == queued_after(old(queues)@[k].queued_actions@,
                    old(queues)@[k].max_queue_size,
                    QueuedAction { action, turn_queued: current_turn, execution_turn: None, retry_count: 0,
                        max_retries: 1, queue_priority: priority })
            },
        },
{
    proof { lemma_queue_index_of(queues@, civ_id); }
    match find_queue_index(queues, civ_id) {
        None => {},
        Some(k) => {
            if queues[k].has_capacity() {
                queues[k].queue_action_with_settings(action, priority, current_turn, None, 1);
            }
        },
    }
}

/// The entry that `queue_action` makes of `action` with priority `priority` on `turn`.
pub open spec fn default_entry<A>(action: A, priority: Option<i64>, turn: u32) -> QueuedAction<A> {
    QueuedAction { action, turn_queued: turn, execution_turn: None, retry_count: 0,
        max_retries: DEFAULT_MAX_RETRIES, queue_priority: priority }
}

/// The entries after queueing each of `items` in turn, as `queue_action` does.
pub open spec fn queued_all<A>(s: Seq<QueuedAction<A>>, max: usize, items: Seq<(A, Option<i64>)>, turn: u32) -> Seq<QueuedAction<A>>
    decreases items.len(),
{
    if items.len() == 0 {
        s
    } else {
        queued_after(queued_all(s, max, items.drop_last(), turn), max,
            default_entry(items.last().0, items.last().1, turn))
    }
}

/// The entries of each queue.
pub open spec fn entries_of<A>(queues: Seq<ActionQueue<A>>) -> Seq<Seq<QueuedAction<A>>> {
    Seq::new(queues.len(), |i: int| queues[i].queued_actions@)
}

/// The decisions with each list of actions taken as a sequence.
pub open spec fn decisions_view<A>(decisions: Seq<(CivId, Vec<(A, Option<i64>)>)>) -> Seq<(CivId, Seq<(A, Option<i64>)>)> {
    Seq::new(decisions.len(), |i: int| (decisions[i].0, decisions[i].1@))
}

/// The entries of the queues `queues` (owners and capacities as in `shape`) after each
/// civilization's decisions are queued, in order, into the first queue that belongs to it.
pub open spec fn populated<A>(entries: Seq<Seq<QueuedAction<A>>>, shape: Seq<ActionQueue<A>>,
    decisions: Seq<(CivId, Seq<(A, Option<i64>)>)>, turn: u32) -> Seq<Seq<QueuedAction<A>>>
    decreases decisions.len(),
{
    if decisions.len() == 0 {
        entries
    } else {
        let before = populated(entries, shape, decisions.drop_last(), turn);
        match queue_index_of(shape, decisions.last().0) {
            None => before,
            Some(k) => before.update(k, queued_all(before[k], shape[k].max_queue_size, decisions.last().1, turn)),
        }
    }
}

proof fn lemma_queue_index_of_owners<A>(a: Seq<ActionQueue<A>>, b: Seq<ActionQueue<A>>, civ: CivId)
    requires
        a.len() == b.len(),
        forall|j: int| 0 <= j < a.len() ==> (#[trigger] a[j]).civilization_id == b[j].civilization_id,
    ensures
        queue_index_of(a, civ) == queue_index_of(b, civ),
    decreases a.len(),
{
    if a.len() > 0 {
        let (pa, pb) = (a.drop_last(), b.drop_last());
        assert forall|j: int| 0 <= j < pa.len() implies (#[trigger] pa[j]).civilization_id == pb[j].civilization_id by {
            assert(pa[j] == a[j]);
            assert(pb[j] == b[j]);
        }
        lemma_queue_index_of_owners(pa, pb, civ);
        assert(a.last() == a[a.len() - 1]);
    }
}

impl<A> ActionQueue<A> {
    /// Queues each of `items`, in order, with its priority and the default settings.
    fn queue_decisions(&mut self, items: Vec<(A, Option<i64>)>, current_turn: u32)
        ensures
            same_settings(*final(self), *old(self)),
            final(self).queued_actions@ == queued_all(old(self).queued_actions@, old(self).max_queue_size, items@, current_turn),
    {
        let ghost all = items@;
        let mut items = items;
        let ghost mut n: int = 0;
        while items.len() > 0
            invariant
                0 <= n <= all.len(),
                items@.len() == all.len() - n,
                items@ == all.skip(n),
                same_settings(*self, *old(self)),
                self.queued_actions@ == queued_all(old(self).queued_actions@, old(self).max_queue_size, all.take(n), current_turn),
            decreases items@.len(),
        {
            let (action, priority) = items.remove(0);
            proof {
                assert(all.take(n + 1).drop_last() =~= all.take(n));
                assert(all[n] == (action, priority));
            }
            if self.has_capacity() {
                self.queue_action(action, priority, current_turn);
            }
            proof {
                n = n + 1;
                assert(items@ =~= all.skip(n));
            }
        }
        proof {
            assert(all.take(n) =~= all);
        }
    }
}

/// Queues the AI's decisions: each civilization's actions go, in order, into the first
/// queue that belongs to it, as far as it has room; decisions for a civilization without
/// a queue are dropped.
pub fn populate_action_queues_from_ai_decisions<A>(ai_decisions: Vec<(CivId, Vec<(A, Option<i64>)>)>, queues: &mut Vec<ActionQueue<A>>, current_turn: u32)
    ensures
        final(queues)@.len() == old(queues)@.len(),
        forall|j: int| 0 <= j < old(queues)@.len() ==> same_settings(#[trigger] final(queues)@[j], old(queues)@[j]),
        entries_of(final(queues)@) == populated(entries_of(old(queues)@), old(queues)@, decisions_view(ai_decisions@), current_turn),
{
    let ghost all = decisions_view(ai_decisions@);
    let ghost shape = old(queues)@;
    let mut decisions = ai_decisions;
    let ghost mut n: int = 0;
    while decisions.len() > 0
        invariant
            0 <= n <= all.len(),
            decisions@.len() == all.len() - n,
            decisions_view(decisions@) == all.skip(n),
            queues@.len() == shape.len(),
            forall|j: int| 0 <= j < shape.len() ==> same_settings(#[trigger] queues@[j], shape[j]),
            entries_of(queues@) == populated(entries_of(shape), shape, all.take(n), current_turn),
        decreases decisions@.len(),
    {
        let ghost before = queues@;
        let ghost pending = decisions@;
        let (civ, items) = decisions.remove(0);
        proof {
            assert(all.take(n + 1).drop_last() =~= all.take(n));
            assert(decisions_view(pending)[0] == all[n]);
            assert(all[n] == (civ, items@));
            lemma_queue_index_of_owners(before, shape, civ);
            lemma_queue_index_of(before, civ);
        }
        match find_queue_index(queues, civ) {
            None => {},
            Some(k) => {
                queues[k].queue_decisions(items, current_turn);
                proof {
                    assert(entries_of(queues@) =~= entries_of(before).update(k as int,
                        queued_all(entries_of(before)[k as int], shape[k as int].max_queue_size, all[n].1, current_turn)));
                }
            },
        }
        proof {
            n = n + 1;
            assert forall|i: int| 0 <= i < decisions@.len() implies #[trigger] decisions_view(decisions@)[i] == all.skip(n)[i] by {
                assert(decisions@[i] == pending[i + 1]);
                assert(decisions_view(pending)[i + 1] == all.skip(n - 1)[i + 1]);
            }
            assert(decisions_view(decisions@) =~= all.skip(n));
        }
    }
    proof {
        assert(all.take(n) =~= all);
    }
}

} // verus!
