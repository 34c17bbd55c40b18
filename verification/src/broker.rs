//! The broker client's state: which consumer (per-connection key) holds
//! which queue under which subscription, and what each request makes the
//! client say to the broker. The network transport performs the returned
//! frames; the logic here decides them.

use vstd::prelude::*;
use crate::frame::{
    ack_mode_str, command_str, header_lookup, AckMode, Command, Frame, Header, HeaderList,
};
use crate::utils::{dec_str_of, dec_string, dec_val, push_char, str_eq};

verus! {

/// The view of one consumer: (consumer id, queue name, subscription id).
pub type ConsumerView = (Seq<char>, Seq<char>, Seq<char>);

/// A request a session sends to the broker client.
#[derive(Clone, Debug, PartialEq)]
pub enum BrokerRequest {
    Subscribe { id: String, subject: String },
    Unsubscribe { id: String },
    PostMessage {
        subject: String,
        payload: String,
        reply_to: String,
        message_expiration_in_seconds: Option<u32>,
    },
}

/// A response the broker client hands back to a session.
#[derive(Clone, Debug, PartialEq)]
pub enum BrokerResponse {
    Message { subject: String, payload: String, reply_to: String },
}

/// One registered consumer.
#[derive(Clone, Debug, PartialEq)]
pub struct Consumer {
    pub subject: String,
    pub subscription_id: String,
}

/// A field-wise copy of a consumer entry.
fn clone_entry(e: &ConsumerEntry) -> (r: ConsumerEntry)
    ensures
        r == *e,
{
    ConsumerEntry {
        id: e.id.clone(),
        consumer: Consumer {
            subject: e.consumer.subject.clone(),
            subscription_id: e.consumer.subscription_id.clone(),
        },
    }
}

impl Consumer {
    pub fn new(subject: String, subscription_id: String) -> (r: Consumer)
        ensures
            r.subject@ == subject@,
            r.subscription_id@ == subscription_id@,
    {
        Consumer { subject, subscription_id }
    }
}

/// A consumer keyed by its connection's id.
#[derive(Clone, Debug, PartialEq)]
pub struct ConsumerEntry {
    pub id: String,
    pub consumer: Consumer,
}

/// The views of a consumer table.
pub open spec fn entry_views(s: Seq<ConsumerEntry>) -> Seq<ConsumerView> {
    s.map_values(|e: ConsumerEntry| (e.id@, e.consumer.subject@, e.consumer.subscription_id@))
}

/// The entries that survive a subscribe for `id` on `subject`: neither that
/// connection's prior consumer nor the queue's prior owner.
pub open spec fn kept_views(v: Seq<ConsumerView>, id: Seq<char>, subject: Seq<char>) -> Seq<
    ConsumerView,
>
    decreases v.len(),
{
    if v.len() == 0 {
        Seq::empty()
    } else if v.last().0 == id || v.last().1 == subject {
        kept_views(v.drop_last(), id, subject)
    } else {
        kept_views(v.drop_last(), id, subject).push(v.last())
    }
}

/// The entries a subscribe for `id` on `subject` evicts, in table order.
pub open spec fn dropped_views(v: Seq<ConsumerView>, id: Seq<char>, subject: Seq<char>) -> Seq<
    ConsumerView,
>
    decreases v.len(),
{
    if v.len() == 0 {
        Seq::empty()
    } else if v.last().0 == id || v.last().1 == subject {
        dropped_views(v.drop_last(), id, subject).push(v.last())
    } else {
        dropped_views(v.drop_last(), id, subject)
    }
}

/// The entries other than the one keyed `id`.
pub open spec fn without_id(v: Seq<ConsumerView>, id: Seq<char>) -> Seq<ConsumerView>
    decreases v.len(),
{
    if v.len() == 0 {
        Seq::empty()
    } else if v.last().0 == id {
        without_id(v.drop_last(), id)
    } else {
        without_id(v.drop_last(), id).push(v.last())
    }
}

/// The entries the unsubscribe for `id` removes.
pub open spec fn dropped_by_id(v: Seq<ConsumerView>, id: Seq<char>) -> Seq<ConsumerView>
    decreases v.len(),
{
    if v.len() == 0 {
        Seq::empty()
    } else if v.last().0 == id {
        dropped_by_id(v.drop_last(), id).push(v.last())
    } else {
        dropped_by_id(v.drop_last(), id)
    }
}

/// The first consumer registered under a subscription id.
pub open spec fn find_by_sub(v: Seq<ConsumerView>, sid: Seq<char>) -> Option<ConsumerView>
    decreases v.len(),
{
    if v.len() == 0 {
        None
    } else if v[0].2 == sid {
        Some(v[0])
    } else {
        find_by_sub(v.skip(1), sid)
    }
}

/// An UNSUBSCRIBE frame for a subscription id.
pub open spec fn is_unsub_frame(f: Frame, sid: Seq<char>) -> bool {
    &&& f.command == Command::Unsubscribe
    &&& f.body@.len() == 0
    &&& f.headers.items@.len() == 1
    &&& f.headers.items@[0].name@ == "id"@
    &&& f.headers.items@[0].value@ == sid
}

/// A SUBSCRIBE frame for a queue under a subscription id, auto-ack, with
/// the queue expiration header.
pub open spec fn is_subscribe_frame(f: Frame, subject: Seq<char>, sid: Seq<char>) -> bool {
    &&& f.command == Command::Subscribe
    &&& f.body@.len() == 0
    &&& f.headers.items@.len() == 4
    &&& f.headers.items@[0].name@ == "destination"@ && f.headers.items@[0].value@ == subject
    &&& f.headers.items@[1].name@ == "id"@ && f.headers.items@[1].value@ == sid
    &&& f.headers.items@[2].name@ == "ack"@ && f.headers.items@[2].value@ == ack_mode_str(
        AckMode::Auto,
    )
    &&& f.headers.items@[3].name@ == "x-expires"@ && f.headers.items@[3].value@ == "86400000"@
}

/// The message expiration in milliseconds: the given seconds when they lie
/// in 1..=86400, the one-day default otherwise.
pub open spec fn spec_clamp_expiration_ms(ttl: Option<u32>) -> u32 {
    match ttl {
        Some(t) => if 1 <= t <= 86400 {
            (t * 1000) as u32
        } else {
            86400000
        },
        None => 86400000,
    }
}

/// Clamp a requested message expiration to at most one day (in ms).
pub fn clamp_expiration_ms(ttl: Option<u32>) -> (r: u32)
    ensures
        r == spec_clamp_expiration_ms(ttl),
{
    match ttl {
        Some(t) => if 1 <= t && t <= 86400 {
            t * 1000
        } else {
            86400000
        },
        None => 86400000,
    }
}

/// A SEND frame publishing a payload to a queue with the relay's headers.
pub open spec fn is_publish_frame(
    f: Frame,
    subject: Seq<char>,
    payload: Seq<char>,
    reply_to: Seq<char>,
    ttl: Option<u32>,
) -> bool {
    &&& f.command == Command::Send
    &&& f.body@ == crate::crypto::str_octets(payload)
    &&& f.headers.items@.len() == 5
    &&& f.headers.items@[0].name@ == "destination"@ && f.headers.items@[0].value@ == "/queue/"@
        + subject
    &&& f.headers.items@[1].name@ == "content-length"@ && f.headers.items@[1].value@ == dec_str_of(
        crate::crypto::str_octets(payload).len() as int,
    )
    &&& f.headers.items@[2].name@ == "x-expires"@ && f.headers.items@[2].value@ == "86400000"@
    &&& f.headers.items@[3].name@ == "expiration"@ && f.headers.items@[3].value@ == dec_str_of(
        spec_clamp_expiration_ms(ttl) as int,
    )
    &&& f.headers.items@[4].name@ == "grinrelay-reply-to"@ && f.headers.items@[4].value@
        == reply_to
}

/// A subscription id the counter minted before reaching `bound`: the
/// canonical decimal rendering of a number below it.
pub open spec fn is_minted(s: Seq<char>, bound: int) -> bool {
    s == dec_str_of(dec_val(s)) && 0 <= dec_val(s) < bound
}

/// A minted id never equals the rendering of the current counter value.
proof fn lemma_minted_fresh(s: Seq<char>, bound: int)
    requires
        is_minted(s, bound),
    ensures
        s != dec_str_of(bound),
{
    crate::utils::lemma_dec_round_trip(bound);
    if s == dec_str_of(bound) {
        assert(dec_val(s) == bound);
    }
}

/// The broker client's table of live consumers plus its subscription-id
/// counter.
#[derive(Clone, Debug)]
pub struct BrokerSession {
    pub consumers: Vec<ConsumerEntry>,
    pub next_subscription: u64,
}

impl BrokerSession {
    /// The consumer views, in registration order.
    pub open spec fn view(&self) -> Seq<ConsumerView> {
        entry_views(self.consumers@)
    }

    /// Consumer ids, queues and subscription ids are all unique, and every
    /// subscription id was minted by the counter.
    pub open spec fn wf(&self) -> bool {
        &&& forall|i: int, j: int|
            0 <= i < j < self.view().len() ==> (#[trigger] self.view()[i]).0 != (
            #[trigger] self.view()[j]).0 && self.view()[i].1 != self.view()[j].1 && self.view()[
                i].2 != self.view()[j].2
        &&& forall|i: int|
            0 <= i < self.view().len() ==> is_minted(
                (#[trigger] self.view()[i]).2,
                self.next_subscription as int,
            )
    }

    /// An empty table.
    pub fn new() -> (r: BrokerSession)
        ensures
            r.wf(),
            r.view() =~= Seq::<ConsumerView>::empty(),
            r.next_subscription == 0,
    {
        BrokerSession { consumers: Vec::new(), next_subscription: 0 }
    }

    /// What `subscribe` leaves behind and says: the prior owner of the
    /// queue and the connection's prior consumer are evicted (each with an
    /// UNSUBSCRIBE), the new consumer is registered under a fresh
    /// subscription id, and a SUBSCRIBE goes out last.
    pub open spec fn subscribe_post(
        pre: BrokerSession,
        post: BrokerSession,
        frames: Seq<Frame>,
        id: Seq<char>,
        subject: Seq<char>,
    ) -> bool {
        let dropped = dropped_views(pre.view(), id, subject);
        let fresh = dec_str_of(pre.next_subscription as int);
        &&& post.view() == kept_views(pre.view(), id, subject).push((id, subject, fresh))
        &&& post.next_subscription == pre.next_subscription + 1
        &&& frames.len() == dropped.len() + 1
        &&& forall|k: int| 0 <= k < dropped.len() ==> is_unsub_frame(#[trigger] frames[k], dropped[k].2)
        &&& is_subscribe_frame(frames.last(), subject, fresh)
    }

    /// Register a consumer for a queue, evicting the queue's prior owner
    /// and this connection's prior consumer.
    pub fn subscribe(&mut self, id: &str, subject: &str) -> (frames: Vec<Frame>)
        requires
            old(self).wf(),
            old(self).next_subscription < 0xffff_ffff_ffff_ffff,
        ensures
            final(self).wf(),
            BrokerSession::subscribe_post(*old(self), *final(self), frames@, id@, subject@),
    {
        let n = self.consumers.len();
        let mut kept: Vec<ConsumerEntry> = Vec::new();
        let mut frames: Vec<Frame> = Vec::new();
        let mut i: usize = 0;
        while i < n
            invariant
                i <= n == self.consumers@.len(),
                entry_views(kept@) =~= kept_views(self.view().take(i as int), id@, subject@),
                frames@.len() == dropped_views(self.view().take(i as int), id@, subject@).len(),
                forall|k: int|
                    0 <= k < frames@.len() ==> is_unsub_frame(
                        #[trigger] frames@[k],
                        dropped_views(self.view().take(i as int), id@, subject@)[k].2,
                    ),
            decreases n - i,
        {
            proof {
                assert(self.view().take(i + 1 as int).drop_last() =~= self.view().take(i as int));
                assert(self.view().take(i + 1 as int).last() == self.view()[i as int]);
            }
            let e = &self.consumers[i];
            if str_eq(e.id.as_str(), id) || str_eq(e.consumer.subject.as_str(), subject) {
                frames.push(Frame::unsubscribe(e.consumer.subscription_id.as_str()));
                proof {
                    let d = dropped_views(self.view().take(i + 1 as int), id@, subject@);
                    assert(d =~= dropped_views(self.view().take(i as int), id@, subject@).push(
                        self.view()[i as int],
                    ));
                }
            } else {
                kept.push(clone_entry(e));
                proof {
                    assert(entry_views(kept@) =~= kept_views(
                        self.view().take(i + 1 as int),
                        id@,
                        subject@,
                    ));
                }
            }
            i += 1;
        }
        proof {
            assert(self.view().take(n as int) =~= self.view());
        }
        let fresh = dec_string(self.next_subscription);
        let mut sub_frame = Frame::subscribe(fresh.as_str(), subject, AckMode::Auto);
        sub_frame.headers.push(Header::new("x-expires", "86400000"));
        frames.push(sub_frame);
        let entry = ConsumerEntry {
            id: crate::utils::owned_str(id),
            consumer: Consumer::new(crate::utils::owned_str(subject), fresh),
        };
        kept.push(entry);
        let ghost pre = *self;
        self.consumers = kept;
        self.next_subscription = self.next_subscription + 1;
        proof {
            assert(self.view() =~= kept_views(pre.view(), id@, subject@).push(
                (id@, subject@, dec_str_of(pre.next_subscription as int)),
            ));
            lemma_kept_views_wf(pre.view(), id@, subject@, pre.next_subscription as int);
            let kv = kept_views(pre.view(), id@, subject@);
            assert forall|i2: int, j2: int| 0 <= i2 < j2 < self.view().len() implies (
            #[trigger] self.view()[i2]).0 != (#[trigger] self.view()[j2]).0 && self.view()[i2].1
                != self.view()[j2].1 && self.view()[i2].2 != self.view()[j2].2 by {
                if j2 == self.view().len() - 1 {
                    assert(kv[i2].0 != id@ && kv[i2].1 != subject@);
                    lemma_minted_fresh(kv[i2].2, pre.next_subscription as int);
                }
            }
            crate::utils::lemma_dec_round_trip(pre.next_subscription as int);
            assert forall|i2: int| 0 <= i2 < self.view().len() implies is_minted(
                (#[trigger] self.view()[i2]).2,
                self.next_subscription as int,
            ) by {
                if i2 < self.view().len() - 1 {
                    assert(is_minted(kv[i2].2, pre.next_subscription as int));
                }
            }
        }
        frames
    }

    /// What `unsubscribe` leaves behind and says.
    pub open spec fn unsubscribe_post(
        pre: BrokerSession,
        post: BrokerSession,
        frames: Seq<Frame>,
        id: Seq<char>,
    ) -> bool {
        let dropped = dropped_by_id(pre.view(), id);
        &&& post.view() == without_id(pre.view(), id)
        &&& post.next_subscription == pre.next_subscription
        &&& frames.len() == dropped.len()
        &&& forall|k: int| 0 <= k < dropped.len() ==> is_unsub_frame(#[trigger] frames[k], dropped[k].2)
    }

    /// Drop a connection's consumer, closing its broker subscription.
    pub fn unsubscribe(&mut self, id: &str) -> (frames: Vec<Frame>)
        requires
            old(self).wf(),
        ensures
            final(self).wf(),
            BrokerSession::unsubscribe_post(*old(self), *final(self), frames@, id@),
    {
        let n = self.consumers.len();
        let mut kept: Vec<ConsumerEntry> = Vec::new();
        let mut frames: Vec<Frame> = Vec::new();
        let mut i: usize = 0;
        while i < n
            invariant
                i <= n == self.consumers@.len(),
                entry_views(kept@) =~= without_id(self.view().take(i as int), id@),
                frames@.len() == dropped_by_id(self.view().take(i as int), id@).len(),
                forall|k: int|
                    0 <= k < frames@.len() ==> is_unsub_frame(
                        #[trigger] frames@[k],
                        dropped_by_id(self.view().take(i as int), id@)[k].2,
                    ),
            decreases n - i,
        {
            proof {
                assert(self.view().take(i + 1 as int).drop_last() =~= self.view().take(i as int));
                assert(self.view().take(i + 1 as int).last() == self.view()[i as int]);
            }
            let e = &self.consumers[i];
            if str_eq(e.id.as_str(), id) {
                frames.push(Frame::unsubscribe(e.consumer.subscription_id.as_str()));
                proof {
                    assert(dropped_by_id(self.view().take(i + 1 as int), id@) =~= dropped_by_id(
                        self.view().take(i as int),
                        id@,
                    ).push(self.view()[i as int]));
                }
            } else {
                kept.push(clone_entry(e));
                proof {
                    assert(entry_views(kept@) =~= without_id(
                        self.view().take(i + 1 as int),
                        id@,
                    ));
                }
            }
            i += 1;
        }
        proof {
            assert(self.view().take(n as int) =~= self.view());
        }
        let ghost pre = *self;
        self.consumers = kept;
        proof {
            lemma_without_id_wf(pre.view(), id@, pre.next_subscription as int);
        }
        frames
    }

    /// Build the SEND frame that publishes a payload to a queue.
    pub fn publish(
        &self,
        subject: &str,
        payload: &str,
        reply_to: &str,
        message_expiration_in_seconds: Option<u32>,
    ) -> (f: Frame)
        ensures
            is_publish_frame(
                f,
                subject@,
                payload@,
                reply_to@,
                message_expiration_in_seconds,
            ),
    {
        proof {
            reveal_strlit("/queue/");
        }
        let mut destination = "/queue/".to_owned();
        destination.append(subject);
        let mut f = Frame::send(destination.as_str(), payload.as_bytes());
        f.headers.push(Header::new("x-expires", "86400000"));
        let expiration = dec_string(clamp_expiration_ms(message_expiration_in_seconds) as u64);
        f.headers.push(Header::new("expiration", expiration.as_str()));
        f.headers.push(Header::new("grinrelay-reply-to", reply_to));
        f
    }

    /// What a MESSAGE frame delivers: the consumer id the frame's
    /// subscription belongs to, and the message for its session.
    pub open spec fn on_message_spec(v: Seq<ConsumerView>, f: Frame) -> Option<
        (ConsumerView, Seq<char>, Seq<char>),
    > {
        match header_lookup(f.headers.items@, "subscription"@) {
            None => None,
            Some(sid) => match find_by_sub(v, sid) {
                None => None,
                Some(c) => match header_lookup(f.headers.items@, "grinrelay-reply-to"@) {
                    None => None,
                    Some(rt) => if vstd::utf8::valid_utf8(f.body@) {
                        Some((c, rt, vstd::utf8::decode_utf8(f.body@)))
                    } else {
                        None
                    },
                },
            },
        }
    }

    /// Route a broker MESSAGE frame to the consumer its subscription
    /// belongs to. A frame without a known subscription or reply-to header,
    /// or with a body that is not UTF-8, is dropped.
    pub fn on_message(&self, frame: &Frame) -> (r: Option<(String, BrokerResponse)>)
        ensures
            match BrokerSession::on_message_spec(self.view(), *frame) {
                None => r is None,
                Some(t) => (r matches Some(p) && p.0@ == t.0.0 && (
                p.1 matches BrokerResponse::Message { subject, payload, reply_to } && subject@
                    == t.0.1 && reply_to@ == t.1 && payload@ == t.2)),
            },
    {
        let sid = match frame.headers.get("subscription") {
            Some(s) => s,
            None => {
                return None;
            },
        };
        let idx = match self.find_consumer_by_sub(sid.as_str()) {
            Some(i) => i,
            None => {
                return None;
            },
        };
        let rt = match frame.headers.get("grinrelay-reply-to") {
            Some(s) => s,
            None => {
                return None;
            },
        };
        let payload = match crate::utils::bytes_to_string(&frame.body) {
            Some(s) => s,
            None => {
                return None;
            },
        };
        let e = &self.consumers[idx];
        Some(
            (
                e.id.clone(),
                BrokerResponse::Message {
                    subject: e.consumer.subject.clone(),
                    payload,
                    reply_to: rt,
                },
            ),
        )
    }

    /// The index of the consumer holding a subscription id.
    fn find_consumer_by_sub(&self, sid: &str) -> (r: Option<usize>)
        ensures
            match r {
                Some(i) => i < self.view().len() && find_by_sub(self.view(), sid@) == Some(
                    self.view()[i as int],
                ),
                None => find_by_sub(self.view(), sid@) is None,
            },
    {
        let n = self.consumers.len();
        let mut i: usize = 0;
        while i < n
            invariant
                i <= n == self.consumers@.len(),
                forall|j: int| 0 <= j < i ==> (#[trigger] self.view()[j]).2 != sid@,
            decreases n - i,
        {
            if str_eq(self.consumers[i].consumer.subscription_id.as_str(), sid) {
                proof {
                    lemma_find_by_sub_found(self.view(), sid@, i as int);
                }
                return Some(i);
            }
            i += 1;
        }
        proof {
            lemma_find_by_sub_absent(self.view(), sid@);
        }
        None
    }

    /// Dispatch one session request: what to tell the broker.
    pub fn handle_request(&mut self, req: &BrokerRequest) -> (frames: Vec<Frame>)
        requires
            old(self).wf(),
            old(self).next_subscription < 0xffff_ffff_ffff_ffff,
        ensures
            final(self).wf(),
            match *req {
                BrokerRequest::Subscribe { ref id, ref subject } => BrokerSession::subscribe_post(
                    *old(self),
                    *final(self),
                    frames@,
                    id@,
                    subject@,
                ),
                BrokerRequest::Unsubscribe { ref id } => BrokerSession::unsubscribe_post(
                    *old(self),
                    *final(self),
                    frames@,
                    id@,
                ),
                BrokerRequest::PostMessage {
                    ref subject,
                    ref payload,
                    ref reply_to,
                    message_expiration_in_seconds,
                } => *final(self) == *old(self) && frames@.len() == 1 && is_publish_frame(
                    frames@[0],
                    subject@,
                    payload@,
                    reply_to@,
                    message_expiration_in_seconds,
                ),
            },
    {
        match req {
            BrokerRequest::Subscribe { id, subject } => self.subscribe(
                id.as_str(),
                subject.as_str(),
            ),
            BrokerRequest::Unsubscribe { id } => self.unsubscribe(id.as_str()),
            BrokerRequest::PostMessage {
                subject,
                payload,
                reply_to,
                message_expiration_in_seconds,
            } => {
                let f = self.publish(
                    subject.as_str(),
                    payload.as_str(),
                    reply_to.as_str(),
                    *message_expiration_in_seconds,
                );
                let mut v: Vec<Frame> = Vec::new();
                v.push(f);
                v
            },
        }
    }
}

/// Membership in the kept entries: exactly the prior entries that clash
/// with neither the connection id nor the queue.
proof fn lemma_kept_views_wf(v: Seq<ConsumerView>, id: Seq<char>, subject: Seq<char>, bound: int)
    requires
        forall|i: int, j: int|
            0 <= i < j < v.len() ==> (#[trigger] v[i]).0 != (#[trigger] v[j]).0 && v[i].1 != v[j].1
                && v[i].2 != v[j].2,
        forall|i: int| 0 <= i < v.len() ==> is_minted((#[trigger] v[i]).2, bound),
    ensures
        ({
            let kv = kept_views(v, id, subject);
            &&& forall|i: int, j: int|
                0 <= i < j < kv.len() ==> (#[trigger] kv[i]).0 != (#[trigger] kv[j]).0 && kv[i].1
                    != kv[j].1 && kv[i].2 != kv[j].2
            &&& forall|i: int| 0 <= i < kv.len() ==> is_minted((#[trigger] kv[i]).2, bound)
            &&& forall|i: int|
                0 <= i < kv.len() ==> v.contains(#[trigger] kv[i]) && kv[i].0 != id && kv[i].1
                    != subject
        }),
    decreases v.len(),
{
    if v.len() > 0 {
        assert forall|i: int, j: int| 0 <= i < j < v.drop_last().len() implies (#[trigger] v
            .drop_last()[i]).0 != (#[trigger] v.drop_last()[j]).0 && v.drop_last()[i].1 != v
            .drop_last()[j].1 && v.drop_last()[i].2 != v.drop_last()[j].2 by {
            assert(v.drop_last()[i] == v[i] && v.drop_last()[j] == v[j]);
        }
        assert forall|i: int| 0 <= i < v.drop_last().len() implies is_minted(
            (#[trigger] v.drop_last()[i]).2,
            bound,
        ) by {
            assert(v.drop_last()[i] == v[i]);
        }
        lemma_kept_views_wf(v.drop_last(), id, subject, bound);
        let kv0 = kept_views(v.drop_last(), id, subject);
        assert forall|i: int| 0 <= i < kv0.len() implies v.contains(#[trigger] kv0[i]) by {
            assert(v.drop_last().contains(kv0[i]));
            let k = choose|k: int| 0 <= k < v.drop_last().len() && v.drop_last()[k] == kv0[i];
            assert(v[k] == kv0[i]);
        }
        if !(v.last().0 == id || v.last().1 == subject) {
            let kv = kept_views(v, id, subject);
            assert forall|i: int| 0 <= i < kv0.len() implies (#[trigger] kv0[i]).0 != v.last().0
                && kv0[i].1 != v.last().1 && kv0[i].2 != v.last().2 by {
                assert(v.drop_last().contains(kv0[i]));
                let k = choose|k: int|
                    0 <= k < v.drop_last().len() && v.drop_last()[k] == kv0[i];
                assert(v[k] == kv0[i] && k < v.len() - 1);
            }
            assert forall|i: int| 0 <= i < kv.len() implies is_minted(
                (#[trigger] kv[i]).2,
                bound,
            ) by {
                if i < kv0.len() {
                    assert(kv[i] == kv0[i]);
                } else {
                    assert(kv[i] == v.last());
                    assert(v[v.len() - 1] == v.last());
                }
            }
        }
    }
}

/// Membership after removing a connection's entries.
proof fn lemma_without_id_wf(v: Seq<ConsumerView>, id: Seq<char>, bound: int)
    requires
        forall|i: int, j: int|
            0 <= i < j < v.len() ==> (#[trigger] v[i]).0 != (#[trigger] v[j]).0 && v[i].1 != v[j].1
                && v[i].2 != v[j].2,
        forall|i: int| 0 <= i < v.len() ==> is_minted((#[trigger] v[i]).2, bound),
    ensures
        ({
            let w = without_id(v, id);
            &&& forall|i: int, j: int|
                0 <= i < j < w.len() ==> (#[trigger] w[i]).0 != (#[trigger] w[j]).0 && w[i].1
                    != w[j].1 && w[i].2 != w[j].2
            &&& forall|i: int| 0 <= i < w.len() ==> is_minted((#[trigger] w[i]).2, bound)
            &&& forall|i: int| 0 <= i < w.len() ==> v.contains(#[trigger] w[i]) && w[i].0 != id
        }),
    decreases v.len(),
{
    if v.len() > 0 {
        assert forall|i: int, j: int| 0 <= i < j < v.drop_last().len() implies (#[trigger] v
            .drop_last()[i]).0 != (#[trigger] v.drop_last()[j]).0 && v.drop_last()[i].1 != v
            .drop_last()[j].1 && v.drop_last()[i].2 != v.drop_last()[j].2 by {
            assert(v.drop_last()[i] == v[i] && v.drop_last()[j] == v[j]);
        }
        assert forall|i: int| 0 <= i < v.drop_last().len() implies is_minted(
            (#[trigger] v.drop_last()[i]).2,
            bound,
        ) by {
            assert(v.drop_last()[i] == v[i]);
        }
        lemma_without_id_wf(v.drop_last(), id, bound);
        let w0 = without_id(v.drop_last(), id);
        assert forall|i: int| 0 <= i < w0.len() implies v.contains(#[trigger] w0[i]) by {
            assert(v.drop_last().contains(w0[i]));
            let k = choose|k: int| 0 <= k < v.drop_last().len() && v.drop_last()[k] == w0[i];
            assert(v[k] == w0[i]);
        }
        if v.last().0 != id {
            let w = without_id(v, id);
            assert forall|i: int| 0 <= i < w0.len() implies (#[trigger] w0[i]).0 != v.last().0
                && w0[i].1 != v.last().1 && w0[i].2 != v.last().2 by {
                assert(v.drop_last().contains(w0[i]));
                let k = choose|k: int|
                    0 <= k < v.drop_last().len() && v.drop_last()[k] == w0[i];
                assert(v[k] == w0[i] && k < v.len() - 1);
            }
            assert forall|i: int| 0 <= i < w.len() implies is_minted(
                (#[trigger] w[i]).2,
                bound,
            ) by {
                if i < w0.len() {
                    assert(w[i] == w0[i]);
                } else {
                    assert(w[i] == v.last());
                    assert(v[v.len() - 1] == v.last());
                }
            }
        }
    }
}

proof fn lemma_find_by_sub_found(v: Seq<ConsumerView>, sid: Seq<char>, i: int)
    requires
        0 <= i < v.len(),
        v[i].2 == sid,
        forall|j: int| 0 <= j < i ==> (#[trigger] v[j]).2 != sid,
    ensures
        find_by_sub(v, sid) == Some(v[i]),
    decreases v.len(),
{
    if i > 0 {
        assert forall|j: int| 0 <= j < i - 1 implies (#[trigger] v.skip(1)[j]).2 != sid by {
            assert(v.skip(1)[j] == v[j + 1]);
        }
        assert(v.skip(1)[i - 1] == v[i]);
        lemma_find_by_sub_found(v.skip(1), sid, i - 1);
    }
}

proof fn lemma_find_by_sub_absent(v: Seq<ConsumerView>, sid: Seq<char>)
    requires
        forall|j: int| 0 <= j < v.len() ==> (#[trigger] v[j]).2 != sid,
    ensures
        find_by_sub(v, sid) is None,
    decreases v.len(),
{
    if v.len() > 0 {
        assert forall|j: int| 0 <= j < v.len() - 1 implies (#[trigger] v.skip(1)[j]).2 != sid by {
            assert(v.skip(1)[j] == v[j + 1]);
        }
        lemma_find_by_sub_absent(v.skip(1), sid);
    }
}

/// An event the STOMP transport hands the broker client.
#[derive(Clone, Debug)]
pub enum SessionEvent {
    Connected,
    Message { frame: Frame },
    ErrorFrame { frame: Frame },
    Disconnected,
}

impl BrokerSession {
    /// Dispatch one transport event: whether the broker task goes on, and
    /// which session gets which message.
    pub fn handle_event(&self, ev: &SessionEvent) -> (r: (
        bool,
        Option<(String, BrokerResponse)>,
    ))
        ensures
            match *ev {
                SessionEvent::Connected => r.0 && r.1 is None,
                SessionEvent::Message { ref frame } => r.0 && (match BrokerSession::on_message_spec(
                    self.view(),
                    *frame,
                ) {
                    None => r.1 is None,
                    Some(t) => (r.1 matches Some(p) && p.0@ == t.0.0 && (
                    p.1 matches BrokerResponse::Message { subject, payload, reply_to } && subject@
                        == t.0.1 && reply_to@ == t.1 && payload@ == t.2)),
                }),
                SessionEvent::ErrorFrame { .. } => r.0 && r.1 is None,
                SessionEvent::Disconnected => !r.0 && r.1 is None,
            },
    {
        match ev {
            SessionEvent::Connected => (true, None),
            SessionEvent::Message { frame } => (true, self.on_message(frame)),
            SessionEvent::ErrorFrame { frame: _ } => (true, None),
            SessionEvent::Disconnected => (false, None),
        }
    }
}

/// Single-mailbox invariant: after a second successful subscribe for the
/// same connection, exactly one consumer (the newest) carries its id, and
/// the first mailbox's subscription was closed by an UNSUBSCRIBE in the
/// second batch of frames.
pub proof fn lemma_single_mailbox(
    pre: BrokerSession,
    mid: BrokerSession,
    post: BrokerSession,
    frames1: Seq<Frame>,
    frames2: Seq<Frame>,
    id: Seq<char>,
    subject1: Seq<char>,
    subject2: Seq<char>,
)
    requires
        pre.wf(),
        pre.next_subscription < 0xffff_ffff_ffff_fffe,
        BrokerSession::subscribe_post(pre, mid, frames1, id, subject1),
        BrokerSession::subscribe_post(mid, post, frames2, id, subject2),
    ensures
        post.view().len() > 0,
        post.view().last() == (id, subject2, dec_str_of(mid.next_subscription as int)),
        forall|i: int| 0 <= i < post.view().len() - 1 ==> (#[trigger] post.view()[i]).0 != id,
        exists|k: int|
            0 <= k < frames2.len() && is_unsub_frame(
                #[trigger] frames2[k],
                dec_str_of(pre.next_subscription as int),
            ),
{
    let f1 = dec_str_of(pre.next_subscription as int);
    let kv1 = kept_views(pre.view(), id, subject1);
    let d2 = dropped_views(mid.view(), id, subject2);
    let kv2 = kept_views(mid.view(), id, subject2);
    assert(mid.view() == kv1.push((id, subject1, f1)));
    // the new entry of the first subscribe is dropped by the second
    assert(mid.view().last() == (id, subject1, f1));
    assert(mid.view().drop_last() =~= kv1);
    assert(d2 == dropped_views(kv1, id, subject2).push((id, subject1, f1)));
    assert(is_unsub_frame(frames2[d2.len() - 1], f1));
    // only the newest entry carries the id
    lemma_kept_views_wf(pre.view(), id, subject1, pre.next_subscription as int);
    assert forall|i: int| 0 <= i < kv1.len() implies (#[trigger] kv1[i]).0 != id by {}
    assert forall|i: int| 0 <= i < kv2.len() implies (#[trigger] kv2[i]).0 != id by {
        lemma_kept_sub(mid.view(), id, subject2, i);
    }
    assert(post.view() == kv2.push((id, subject2, dec_str_of(mid.next_subscription as int))));
}

/// Every kept entry avoids the subscribing id and subject.
proof fn lemma_kept_sub(v: Seq<ConsumerView>, id: Seq<char>, subject: Seq<char>, i: int)
    requires
        0 <= i < kept_views(v, id, subject).len(),
    ensures
        (kept_views(v, id, subject)[i]).0 != id,
        (kept_views(v, id, subject)[i]).1 != subject,
    decreases v.len(),
{
    if v.len() > 0 {
        if !(v.last().0 == id || v.last().1 == subject) {
            if i < kept_views(v, id, subject).len() - 1 {
                lemma_kept_sub(v.drop_last(), id, subject, i);
            }
        } else {
            lemma_kept_sub(v.drop_last(), id, subject, i);
        }
    }
}

} // verus!
