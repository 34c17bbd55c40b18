//! The address directory: which full addresses are currently subscribed,
//! looked up by their six-character suffix. It is fed by the broker's
//! consumer-created / consumer-deleted lifecycle events and read when a
//! client asks for the full addresses behind an abbreviation.

use vstd::prelude::*;
use crate::utils::str_eq;

verus! {

/// A queue name the directory tracks: a full relay address, at least as
/// long as a bare address and bearing a chain prefix.
pub open spec fn relayable(q: Seq<char>) -> bool {
    q.len() >= 62 && (q.take(3) == "gn1"@ || q.take(3) == "tn1"@)
}

/// The six-character suffix of a queue name.
pub open spec fn suffix_of(q: Seq<char>) -> Seq<char> {
    if q.len() >= 6 {
        q.skip(q.len() - 6)
    } else {
        q
    }
}

/// A consumer lifecycle event as the broker reports it.
#[derive(Clone, Debug, PartialEq)]
pub enum ConsumerEvent {
    Created { queue: String },
    Deleted { queue: String },
}

/// The ghost form of a lifecycle event.
pub struct EventModel {
    pub created: bool,
    pub queue: Seq<char>,
}

/// The queues of `qs` other than `q`.
pub open spec fn seq_without(qs: Seq<Seq<char>>, q: Seq<char>) -> Seq<Seq<char>>
    decreases qs.len(),
{
    if qs.len() == 0 {
        Seq::empty()
    } else if qs.last() == q {
        seq_without(qs.drop_last(), q)
    } else {
        seq_without(qs.drop_last(), q).push(qs.last())
    }
}

/// The queues of `qs` whose suffix is `k`.
pub open spec fn with_suffix(qs: Seq<Seq<char>>, k: Seq<char>) -> Seq<Seq<char>>
    decreases qs.len(),
{
    if qs.len() == 0 {
        Seq::empty()
    } else if suffix_of(qs.last()) == k {
        with_suffix(qs.drop_last(), k).push(qs.last())
    } else {
        with_suffix(qs.drop_last(), k)
    }
}

/// One lifecycle event applied to the set of live queues: a creation
/// registers a relayable queue not yet present; a deletion removes it.
pub open spec fn apply_event(qs: Seq<Seq<char>>, ev: EventModel) -> Seq<Seq<char>> {
    if !relayable(ev.queue) {
        qs
    } else if ev.created {
        if qs.contains(ev.queue) {
            qs
        } else {
            qs.push(ev.queue)
        }
    } else {
        seq_without(qs, ev.queue)
    }
}

/// A sequence of lifecycle events applied in order, oldest first.
pub open spec fn apply_events(qs: Seq<Seq<char>>, evs: Seq<EventModel>) -> Seq<Seq<char>>
    decreases evs.len(),
{
    if evs.len() == 0 {
        qs
    } else {
        apply_event(apply_events(qs, evs.drop_last()), evs.last())
    }
}

/// A queue is live after a sequence of events when the last event that
/// concerns it created it.
pub open spec fn live(q: Seq<char>, evs: Seq<EventModel>) -> bool
    decreases evs.len(),
{
    if evs.len() == 0 {
        false
    } else if evs.last().queue == q {
        evs.last().created
    } else {
        live(q, evs.drop_last())
    }
}

/// The views of a vector of strings.
pub open spec fn strs_view(v: Seq<String>) -> Seq<Seq<char>> {
    v.map_values(|x: String| x@)
}

/// The directory: the set of live relayable queue names, looked up by
/// suffix.
#[derive(Clone, Debug)]
pub struct Directory {
    pub queues: Vec<String>,
}

impl Directory {
    /// The live queue names.
    pub open spec fn view(&self) -> Seq<Seq<char>> {
        strs_view(self.queues@)
    }

    /// No queue is listed twice, and every listed queue is relayable.
    pub open spec fn wf(&self) -> bool {
        &&& forall|i: int, j: int|
            0 <= i < j < self.view().len() ==> #[trigger] self.view()[i] != #[trigger] self.view()[j]
        &&& forall|i: int| 0 <= i < self.view().len() ==> relayable(#[trigger] self.view()[i])
    }

    /// An empty directory.
    pub fn new() -> (r: Directory)
        ensures
            r.wf(),
            r.view() =~= Seq::<Seq<char>>::empty(),
    {
        Directory { queues: Vec::new() }
    }

    /// Whether a queue name is listed.
    pub fn contains_queue(&self, q: &str) -> (r: bool)
        ensures
            r == self.view().contains(q@),
    {
        let n = self.queues.len();
        let mut i: usize = 0;
        while i < n
            invariant
                i <= n == self.queues@.len(),
                forall|j: int| 0 <= j < i ==> #[trigger] self.view()[j] != q@,
            decreases n - i,
        {
            if str_eq(self.queues[i].as_str(), q) {
                proof {
                    assert(self.view()[i as int] == q@);
                }
                return true;
            }
            i += 1;
        }
        proof {
            assert(forall|j: int| 0 <= j < self.view().len() ==> #[trigger] self.view()[j] != q@);
        }
        false
    }

    /// Record a consumer-created event.
    pub fn consumer_created(&mut self, queue: &str)
        requires
            old(self).wf(),
        ensures
            final(self).wf(),
            final(self).view() == apply_event(
                old(self).view(),
                EventModel { created: true, queue: queue@ },
            ),
    {
        if !relayable_exec(queue) {
            return ;
        }
        if self.contains_queue(queue) {
            return ;
        }
        let ghost pre = self.view();
        self.queues.push(queue.to_owned());
        proof {
            assert(self.view() =~= pre.push(queue@));
            assert forall|i: int, j: int| 0 <= i < j < self.view().len() implies #[trigger] self
                .view()[i] != #[trigger] self.view()[j] by {
                if j == self.view().len() - 1 {
                    assert(!pre.contains(queue@));
                    assert(pre[i] != queue@);
                }
            }
        }
    }

    /// Record a consumer-deleted event.
    pub fn consumer_deleted(&mut self, queue: &str)
        requires
            old(self).wf(),
        ensures
            final(self).wf(),
            final(self).view() == apply_event(
                old(self).view(),
                EventModel { created: false, queue: queue@ },
            ),
    {
        if !relayable_exec(queue) {
            return ;
        }
        let n = self.queues.len();
        let mut kept: Vec<String> = Vec::new();
        let mut i: usize = 0;
        while i < n
            invariant
                i <= n == self.queues@.len(),
                strs_view(kept@) =~= seq_without(self.view().take(i as int), queue@),
            decreases n - i,
        {
            proof {
                assert(self.view().take(i + 1 as int).drop_last() =~= self.view().take(i as int));
                assert(self.view().take(i + 1 as int).last() == self.view()[i as int]);
            }
            if !str_eq(self.queues[i].as_str(), queue) {
                kept.push(self.queues[i].clone());
                proof {
                    assert(strs_view(kept@) =~= seq_without(
                        self.view().take(i + 1 as int),
                        queue@,
                    ));
                }
            }
            i += 1;
        }
        proof {
            assert(self.view().take(n as int) =~= self.view());
        }
        let ghost pre = self.view();
        self.queues = kept;
        proof {
            lemma_seq_without_wf(pre, queue@);
        }
    }

    /// Apply a broker lifecycle event.
    pub fn handle_event(&mut self, ev: &ConsumerEvent)
        requires
            old(self).wf(),
        ensures
            final(self).wf(),
            final(self).view() == apply_event(old(self).view(), spec_event(*ev)),
    {
        match ev {
            ConsumerEvent::Created { queue } => self.consumer_created(queue.as_str()),
            ConsumerEvent::Deleted { queue } => self.consumer_deleted(queue.as_str()),
        }
    }

    /// The full addresses currently listed under a suffix, in registration
    /// order.
    pub fn lookup(&self, abbr: &str) -> (r: Vec<String>)
        requires
            abbr@.len() == 6,
        ensures
            strs_view(r@) == with_suffix(self.view(), abbr@),
    {
        let n = self.queues.len();
        let mut out: Vec<String> = Vec::new();
        let mut i: usize = 0;
        while i < n
            invariant
                i <= n == self.queues@.len(),
                abbr@.len() == 6,
                strs_view(out@) =~= with_suffix(self.view().take(i as int), abbr@),
            decreases n - i,
        {
            proof {
                assert(self.view().take(i + 1 as int).drop_last() =~= self.view().take(i as int));
                assert(self.view().take(i + 1 as int).last() == self.view()[i as int]);
            }
            let q = &self.queues[i];
            let qn = q.as_str().unicode_len();
            if qn >= 6 {
                let suf = q.as_str().substring_char(qn - 6, qn);
                if str_eq(suf, abbr) {
                    out.push(q.clone());
                    proof {
                        assert(suffix_of(self.view()[i as int]) == abbr@);
                        assert(strs_view(out@) =~= with_suffix(
                            self.view().take(i + 1 as int),
                            abbr@,
                        ));
                    }
                } else {
                    proof {
                        assert(suffix_of(self.view()[i as int]) != abbr@);
                    }
                }
            } else {
                proof {
                    assert(suffix_of(self.view()[i as int]).len() != 6);
                }
            }
            i += 1;
        }
        proof {
            assert(self.view().take(n as int) =~= self.view());
        }
        out
    }
}

/// The ghost form of an exec event.
pub open spec fn spec_event(ev: ConsumerEvent) -> EventModel {
    match ev {
        ConsumerEvent::Created { queue } => EventModel { created: true, queue: queue@ },
        ConsumerEvent::Deleted { queue } => EventModel { created: false, queue: queue@ },
    }
}

/// Whether a queue name is one the directory tracks.
pub fn relayable_exec(q: &str) -> (r: bool)
    ensures
        r == relayable(q@),
{
    proof {
        reveal_strlit("gn1");
        reveal_strlit("tn1");
    }
    let n = q.unicode_len();
    if n < 62 {
        return false;
    }
    let c0 = q.get_char(0);
    let c1 = q.get_char(1);
    let c2 = q.get_char(2);
    let gn = (c0 == 'g' || c0 == 't') && c1 == 'n' && c2 == '1';
    proof {
        reveal_strlit("gn1");
        reveal_strlit("tn1");
        if gn {
            if c0 == 'g' {
                assert(q@.take(3) =~= "gn1"@);
            } else {
                assert(q@.take(3) =~= "tn1"@);
            }
        } else {
            assert(q@.take(3) != "gn1"@) by {
                reveal_strlit("gn1");
                if q@.take(3) == "gn1"@ {
                    assert(q@.take(3)[0] == 'g' && q@.take(3)[1] == 'n' && q@.take(3)[2] == '1');
                    assert(q@[0] == 'g' && q@[1] == 'n' && q@[2] == '1');
                }
            }
            assert(q@.take(3) != "tn1"@) by {
                reveal_strlit("tn1");
                if q@.take(3) == "tn1"@ {
                    assert(q@.take(3)[0] == 't' && q@.take(3)[1] == 'n' && q@.take(3)[2] == '1');
                    assert(q@[0] == 't' && q@[1] == 'n' && q@[2] == '1');
                }
            }
        }
    }
    gn
}

/// Removing a queue keeps the remaining queues, their uniqueness and their
/// order.
proof fn lemma_seq_without_wf(qs: Seq<Seq<char>>, q: Seq<char>)
    requires
        forall|i: int, j: int| 0 <= i < j < qs.len() ==> #[trigger] qs[i] != #[trigger] qs[j],
        forall|i: int| 0 <= i < qs.len() ==> relayable(#[trigger] qs[i]),
    ensures
        forall|i: int, j: int|
            0 <= i < j < seq_without(qs, q).len() ==> #[trigger] seq_without(qs, q)[i]
                != #[trigger] seq_without(qs, q)[j],
        forall|i: int|
            0 <= i < seq_without(qs, q).len() ==> relayable(#[trigger] seq_without(qs, q)[i]),
        forall|x: Seq<char>|
            #[trigger] seq_without(qs, q).contains(x) <==> qs.contains(x) && x != q,
    decreases qs.len(),
{
    if qs.len() > 0 {
        assert forall|i: int, j: int| 0 <= i < j < qs.drop_last().len() implies #[trigger] qs
            .drop_last()[i] != #[trigger] qs.drop_last()[j] by {
            assert(qs.drop_last()[i] == qs[i] && qs.drop_last()[j] == qs[j]);
        }
        assert forall|i: int| 0 <= i < qs.drop_last().len() implies relayable(
            #[trigger] qs.drop_last()[i],
        ) by {
            assert(qs.drop_last()[i] == qs[i]);
        }
        lemma_seq_without_wf(qs.drop_last(), q);
        assert forall|x: Seq<char>| #[trigger] qs.contains(x) implies qs.last() == x
            || qs.drop_last().contains(x) by {
            let i = choose|i: int| 0 <= i < qs.len() && qs[i] == x;
            if i < qs.len() - 1 {
                assert(qs.drop_last()[i] == x);
            }
        }
        assert forall|x: Seq<char>| #[trigger] qs.drop_last().contains(x) implies qs.contains(
            x,
        ) by {
            let i = choose|i: int| 0 <= i < qs.drop_last().len() && qs.drop_last()[i] == x;
            assert(qs[i] == x);
        }
        if qs.last() != q {
            let w = seq_without(qs.drop_last(), q);
            assert forall|i: int| 0 <= i < w.len() implies #[trigger] w[i] != qs.last() by {
                assert(w.contains(w[i]));
                assert(qs.drop_last().contains(w[i]));
                let k = choose|k: int|
                    0 <= k < qs.drop_last().len() && qs.drop_last()[k] == w[i];
                assert(qs[k] == w[i] && k < qs.len() - 1);
            }
            assert forall|x: Seq<char>| #[trigger] seq_without(qs, q).contains(x) implies
                qs.contains(x) && x != q by {
                let i = choose|i: int|
                    0 <= i < seq_without(qs, q).len() && seq_without(qs, q)[i] == x;
                if i < w.len() {
                    assert(w.contains(x));
                } else {
                    assert(x == qs.last());
                }
            }
            assert forall|x: Seq<char>| qs.contains(x) && x != q implies #[trigger] seq_without(
                qs,
                q,
            ).contains(x) by {
                if x == qs.last() {
                    assert(seq_without(qs, q).last() == x);
                    assert(seq_without(qs, q).contains(x));
                } else {
                    assert(qs.drop_last().contains(x));
                    assert(w.contains(x));
                    let i = choose|i: int| 0 <= i < w.len() && w[i] == x;
                    assert(seq_without(qs, q)[i] == x);
                }
            }
        } else {
            assert forall|x: Seq<char>| qs.contains(x) && x != q implies #[trigger] seq_without(
                qs,
                q,
            ).contains(x) by {
                assert(qs.drop_last().contains(x));
            }
            assert forall|x: Seq<char>| #[trigger] seq_without(qs, q).contains(x) implies
                qs.contains(x) && x != q by {
                assert(seq_without(qs.drop_last(), q).contains(x));
                assert(qs.drop_last().contains(x));
            }
        }
    }
}

/// Directory consistency: after any sequence of lifecycle events, a queue
/// is listed exactly when it is relayable and its last event created it;
/// hence a suffix lookup returns exactly the live queues bearing it.
pub proof fn lemma_directory_consistency(evs: Seq<EventModel>, q: Seq<char>)
    ensures
        apply_events(Seq::empty(), evs).contains(q) <==> relayable(q) && live(q, evs),
        forall|i: int, j: int|
            0 <= i < j < apply_events(Seq::empty(), evs).len() ==> #[trigger] apply_events(
                Seq::empty(),
                evs,
            )[i] != #[trigger] apply_events(Seq::empty(), evs)[j],
        forall|i: int|
            0 <= i < apply_events(Seq::empty(), evs).len() ==> relayable(
                #[trigger] apply_events(Seq::empty(), evs)[i],
            ),
    decreases evs.len(),
{
    if evs.len() == 0 {
    } else {
        let pre = apply_events(Seq::empty(), evs.drop_last());
        lemma_directory_consistency(evs.drop_last(), q);
        let ev = evs.last();
        if !relayable(ev.queue) {
            assert(live(q, evs) == live(q, evs.drop_last()) || q == ev.queue);
            if q == ev.queue {
                assert(!pre.contains(q)) by {
                    if pre.contains(q) {
                        assert(relayable(q));
                    }
                }
            }
        } else if ev.created {
            if !pre.contains(ev.queue) {
                lemma_directory_consistency(evs.drop_last(), ev.queue);
                assert(apply_events(Seq::empty(), evs) == pre.push(ev.queue));
                assert forall|i: int, j: int|
                    0 <= i < j < pre.push(ev.queue).len() implies #[trigger] pre.push(ev.queue)[i]
                    != #[trigger] pre.push(ev.queue)[j] by {
                    if j == pre.len() {
                        assert(pre[i] != ev.queue);
                    }
                }
                if q == ev.queue {
                    assert(pre.push(ev.queue).last() == q);
                    assert(pre.push(ev.queue).contains(q));
                } else {
                    assert(pre.push(ev.queue).contains(q) <==> pre.contains(q)) by {
                        if pre.push(ev.queue).contains(q) {
                            let i = choose|i: int|
                                0 <= i < pre.push(ev.queue).len() && pre.push(ev.queue)[i] == q;
                            assert(i < pre.len());
                            assert(pre[i] == q);
                        }
                        if pre.contains(q) {
                            let i = choose|i: int| 0 <= i < pre.len() && pre[i] == q;
                            assert(pre.push(ev.queue)[i] == q);
                        }
                    }
                }
            } else {
                if q == ev.queue {
                    assert(live(q, evs));
                }
            }
        } else {
            lemma_seq_without_wf(pre, ev.queue);
        }
    }
}

/// The lifecycle-event routing keys the monitor handles.
pub open spec fn spec_monitor_event(
    pre: Seq<Seq<char>>,
    post: Seq<Seq<char>>,
    routing_key: Seq<char>,
    queue: Seq<char>,
) -> bool {
    if routing_key == "consumer.created"@ {
        post == apply_event(pre, EventModel { created: true, queue })
    } else if routing_key == "consumer.deleted"@ {
        post == apply_event(pre, EventModel { created: false, queue })
    } else {
        post == pre
    }
}

/// Apply one raw broker lifecycle message, keyed by its routing key; any
/// other routing key is ignored.
pub fn monitor_event(dir: &mut Directory, routing_key: &str, queue: &str)
    requires
        old(dir).wf(),
    ensures
        final(dir).wf(),
        spec_monitor_event(old(dir).view(), final(dir).view(), routing_key@, queue@),
{
    if crate::utils::str_eq(routing_key, "consumer.created") {
        dir.consumer_created(queue);
    } else if crate::utils::str_eq(routing_key, "consumer.deleted") {
        dir.consumer_deleted(queue);
    }
}

} // verus!
