//! The per-connection protocol session: challenge, signed subscribe, bound
//! mailbox, relay. Each handler is a pure decision: it changes the session
//! and says what to answer the client and what to ask of the broker client;
//! the transports carry those values.

use vstd::prelude::*;
use crate::address::{
    from_str_ok, parsed_addr_ok, spec_hrp_bytes, split_addr, ChainTypes, GrinboxAddress,
    DEFAULT_GRINRELAY_PORT,
};
use crate::bech32::{bech32_decode_of, is_bech32_char, spec_bech32_str};
use crate::broker::BrokerRequest;
use crate::broker::BrokerResponse;
use crate::crypto::{
    chars_of_bytes, der_valid, pk_norm_of, sha256_of, str_octets, verifies_with, AddrBech32, Hex,
    PublicKey, Signature,
};
use crate::directory::{strs_view, with_suffix, Directory};
use crate::error::ErrorKind;
use crate::protocol::{GrinboxError, GrinboxRequest, GrinboxResponse};
use crate::utils::{dec_str_of, dec_val, hex_bytes, hex_parse_ok, str_eq};

verus! {

/// Where a session stands.
#[derive(Clone, Copy, Debug, PartialEq, Eq, Structural)]
pub enum SessionPhase {
    /// Challenge issued, no mailbox yet.
    AwaitingSubscribe,
    /// A mailbox subscription is held.
    Bound,
    /// The connection is gone.
    Closed,
}

/// One client connection's protocol state.
#[derive(Clone, Debug)]
pub struct Session {
    /// The connection's unique key towards the broker client.
    pub id: String,
    /// The nonce issued at accept; immutable for the connection's life.
    pub challenge: String,
    /// The subscribed address while Bound.
    pub addr: Option<GrinboxAddress>,
    pub phase: SessionPhase,
    pub mode: ChainTypes,
}

/// A signature argument parses: hex with a strict-DER payload.
pub open spec fn sig_hex_ok(s: Seq<char>) -> bool {
    hex_parse_ok(s) && der_valid(hex_bytes(s))
}

/// The key part of an address string, after splitting.
pub open spec fn addr_key_of(s: Seq<char>) -> Seq<char> {
    match split_addr(s) {
        Some(p) => p.key,
        None => Seq::empty(),
    }
}

/// The canonical compressed key bytes an address string denotes.
pub open spec fn parsed_key_bytes(s: Seq<char>) -> Seq<u8> {
    pk_norm_of(bech32_decode_of(addr_key_of(s)).1)
}

/// The queue name for an address string: its key re-rendered canonically.
pub open spec fn parsed_queue(s: Seq<char>, hrp: Seq<u8>) -> Seq<char> {
    spec_bech32_str(chars_of_bytes(hrp), parsed_key_bytes(s))
}

/// The stripped rendering of address pieces.
pub open spec fn spec_stripped_parts(key: Seq<char>, domain: Seq<char>, port: u16) -> Seq<char> {
    if domain == crate::address::spec_default_domain() && port == DEFAULT_GRINRELAY_PORT {
        key
    } else {
        let wd = key + seq!['@'] + domain;
        if port != DEFAULT_GRINRELAY_PORT {
            wd + seq![':'] + dec_str_of(port as int)
        } else {
            wd
        }
    }
}

/// The stripped rendering of the address a string parses to.
pub open spec fn parsed_stripped(s: Seq<char>, hrp: Seq<u8>) -> Seq<char> {
    match split_addr(s) {
        Some(p) => spec_stripped_parts(
            parsed_queue(s, hrp),
            match p.domain {
                Some(d) => d,
                None => crate::address::spec_default_domain(),
            },
            match p.port {
                Some(po) => (dec_val(po) as u16),
                None => DEFAULT_GRINRELAY_PORT,
            },
        ),
        None => Seq::empty(),
    }
}

/// An error response with the given kind and description.
pub open spec fn is_error_resp(
    resp: Option<GrinboxResponse>,
    kind: GrinboxError,
    desc: Seq<char>,
) -> bool {
    resp matches Some(GrinboxResponse::Error { kind: k, description }) && k == kind && description@
        == desc
}

/// A correctly signed subscribe: the address parses for the running mode,
/// the signature parses, and it verifies over the session challenge under
/// the address's key.
pub open spec fn subscribe_auth_ok(
    challenge: Seq<char>,
    address: Seq<char>,
    signature: Seq<char>,
    hrp: Seq<u8>,
) -> bool {
    &&& sig_hex_ok(signature)
    &&& verifies_with(
        sha256_of(str_octets(challenge)),
        hex_bytes(signature),
        parsed_key_bytes(address),
    )
}

/// What handling a Subscribe does.
pub open spec fn subscribe_step(
    pre: Session,
    post: Session,
    resp: Option<GrinboxResponse>,
    reqs: Seq<BrokerRequest>,
    address: Seq<char>,
    signature: Seq<char>,
) -> bool {
    let hrp = spec_hrp_bytes(pre.mode);
    &&& post.id == pre.id
    &&& post.challenge == pre.challenge
    &&& post.mode == pre.mode
    &&& if pre.phase is Closed {
        post == pre && resp is None && reqs.len() == 0
    } else if !from_str_ok(address, hrp) {
        post == pre && is_error_resp(resp, GrinboxError::InvalidRequest, "invalid relay address"@)
            && reqs.len() == 0
    } else if !subscribe_auth_ok(pre.challenge@, address, signature, hrp) {
        post == pre && is_error_resp(
            resp,
            GrinboxError::InvalidSignature,
            "signature verification failed"@,
        ) && reqs.len() == 0
    } else {
        &&& post.phase is Bound
        &&& resp == Some(GrinboxResponse::Okay)
        &&& (post.addr matches Some(a) && parsed_addr_ok(a, address, hrp) && reqs.len() == 1 && (
        reqs[0] matches BrokerRequest::Subscribe { id, subject } && id@ == pre.id@ && subject@
            == a.public_key@))
    }
}

/// What handling a PostSlate does.
pub open spec fn post_slate_step(
    pre: Session,
    post: Session,
    resp: Option<GrinboxResponse>,
    reqs: Seq<BrokerRequest>,
    from: Seq<char>,
    to: Seq<char>,
    payload: Seq<char>,
    signature: Seq<char>,
    ttl: Option<u32>,
    dir: Seq<Seq<char>>,
) -> bool {
    let hrp = spec_hrp_bytes(pre.mode);
    &&& post == pre
    &&& if pre.phase is Closed {
        resp is None && reqs.len() == 0
    } else if !from_str_ok(from, hrp) || !from_str_ok(to, hrp) {
        is_error_resp(resp, GrinboxError::InvalidRequest, "invalid relay address"@) && reqs.len()
            == 0
    } else if !(sig_hex_ok(signature) && verifies_with(
        sha256_of(str_octets(payload + pre.challenge@)),
        hex_bytes(signature),
        parsed_key_bytes(from),
    )) {
        is_error_resp(resp, GrinboxError::InvalidSignature, "signature verification failed"@)
            && reqs.len() == 0
    } else if !dir.contains(parsed_queue(to, hrp)) {
        is_error_resp(resp, GrinboxError::Offline, "recipient is not subscribed"@) && reqs.len()
            == 0
    } else {
        &&& resp == Some(GrinboxResponse::Okay)
        &&& reqs.len() == 1
        &&& (reqs[0] matches BrokerRequest::PostMessage {
            subject,
            payload: pl,
            reply_to,
            message_expiration_in_seconds,
        } && subject@ == parsed_queue(to, hrp) && pl@ == payload && reply_to@ == parsed_stripped(
            from,
            hrp,
        ) && message_expiration_in_seconds == ttl)
    }
}

/// A usable abbreviation: exactly six alphabet characters.
pub open spec fn valid_abbr(s: Seq<char>) -> bool {
    s.len() == 6 && forall|i: int| 0 <= i < s.len() ==> is_bech32_char(#[trigger] s[i])
}

/// What handling a RetrieveRelayAddr does.
pub open spec fn retrieve_step(
    dir: Seq<Seq<char>>,
    abbr: Seq<char>,
    resp: GrinboxResponse,
) -> bool {
    if !valid_abbr(abbr) {
        resp matches GrinboxResponse::Error { kind, description } && kind
            == GrinboxError::InvalidRelayAbbr && description@
            == "abbreviation must be six bech32 characters"@
    } else {
        resp matches GrinboxResponse::RelayAddr { abbr: a, relay_addr } && a@ == abbr && strs_view(
            relay_addr@,
        ) == with_suffix(dir, abbr)
    }
}

/// What handling an Unsubscribe does.
pub open spec fn unsubscribe_step(
    pre: Session,
    post: Session,
    resp: Option<GrinboxResponse>,
    reqs: Seq<BrokerRequest>,
    address: Seq<char>,
) -> bool {
    let hrp = spec_hrp_bytes(pre.mode);
    &&& post.id == pre.id
    &&& post.challenge == pre.challenge
    &&& post.mode == pre.mode
    &&& if pre.phase is Closed {
        post == pre && resp is None && reqs.len() == 0
    } else if !(pre.phase is Bound) || !from_str_ok(address, hrp) || !(pre.addr matches Some(a)
        && a.public_key@ == parsed_queue(address, hrp)) {
        post == pre && is_error_resp(
            resp,
            GrinboxError::InvalidRequest,
            "not subscribed to that address"@,
        ) && reqs.len() == 0
    } else {
        &&& post.phase is AwaitingSubscribe
        &&& post.addr is None
        &&& resp == Some(GrinboxResponse::Okay)
        &&& reqs.len() == 1
        &&& (reqs[0] matches BrokerRequest::Unsubscribe { id } && id@ == pre.id@)
    }
}

/// Build an error response.
fn error_resp(kind: GrinboxError, desc: &str) -> (r: GrinboxResponse)
    ensures
        r matches GrinboxResponse::Error { kind: k, description } && k == kind && description@
            == desc@,
{
    GrinboxResponse::Error { kind, description: desc.to_owned() }
}

impl Session {
    /// A session is Bound exactly while it holds an address.
    pub open spec fn wf(&self) -> bool {
        self.phase is Bound <==> self.addr is Some
    }

    /// Open a session: remember the challenge, reply with it, await the
    /// signed subscribe.
    pub fn new(id: String, challenge: String, mode: ChainTypes) -> (r: (
        Session,
        GrinboxResponse,
    ))
        ensures
            r.0.wf(),
            r.0.id@ == id@,
            r.0.challenge@ == challenge@,
            r.0.phase is AwaitingSubscribe,
            r.0.addr is None,
            r.0.mode == mode,
            r.1 matches GrinboxResponse::Challenge { str: c } && c@ == challenge@,
    {
        let greeting = GrinboxResponse::Challenge { str: challenge.clone() };
        (Session { id, challenge, addr: None, phase: SessionPhase::AwaitingSubscribe, mode },
        greeting)
    }

    /// Re-issue the session challenge.
    pub fn handle_challenge(&self) -> (r: GrinboxResponse)
        ensures
            r matches GrinboxResponse::Challenge { str: c } && c@ == self.challenge@,
    {
        GrinboxResponse::Challenge { str: self.challenge.clone() }
    }

    /// Handle a Subscribe: on a verified signature, bind the session to the
    /// address and ask the broker client for its mailbox. A second
    /// successful Subscribe re-binds the session; the broker client evicts
    /// the prior mailbox when it registers the new consumer under the same
    /// connection id.
    pub fn handle_subscribe(&mut self, address: &str, signature: &str) -> (r: (
        Option<GrinboxResponse>,
        Vec<BrokerRequest>,
    ))
        requires
            old(self).wf(),
        ensures
            final(self).wf(),
            subscribe_step(*old(self), *final(self), r.0, r.1@, address@, signature@),
    {
        if self.phase == SessionPhase::Closed {
            return (None, Vec::new());
        }
        let a = match GrinboxAddress::from_str(address, &self.mode) {
            Ok(a) => a,
            Err(_) => {
                return (Some(error_resp(GrinboxError::InvalidRequest, "invalid relay address")),
                Vec::new());
            },
        };
        let sig = match Signature::from_hex(signature) {
            Ok(s) => s,
            Err(_) => {
                return (
                Some(error_resp(GrinboxError::InvalidSignature, "signature verification failed")),
                Vec::new());
            },
        };
        let pk = match self.recover_key(&a, address) {
            Some(pk) => pk,
            None => {
                return (Some(error_resp(GrinboxError::UnknownError, "internal key error")),
                Vec::new());
            },
        };
        match crate::crypto::verify_signature(self.challenge.as_str(), &sig, &pk) {
            Ok(()) => {
                let mut reqs: Vec<BrokerRequest> = Vec::new();
                reqs.push(
                    BrokerRequest::Subscribe {
                        id: self.id.clone(),
                        subject: a.public_key.clone(),
                    },
                );
                self.phase = SessionPhase::Bound;
                self.addr = Some(a);
                (Some(GrinboxResponse::Okay), reqs)
            },
            Err(_) => {
                (
                Some(error_resp(GrinboxError::InvalidSignature, "signature verification failed")),
                Vec::new())
            },
        }
    }

    /// The public key behind an address this session just parsed; succeeds
    /// for every address `from_str` accepted.
    fn recover_key(&self, a: &GrinboxAddress, address: &str) -> (r: Option<PublicKey>)
        requires
            from_str_ok(address@, spec_hrp_bytes(self.mode)),
            parsed_addr_ok(*a, address@, spec_hrp_bytes(self.mode)),
        ensures
            r matches Some(pk) && pk.wf() && pk.bytes@ == parsed_key_bytes(address@),
    {
        proof {
            crate::address::lemma_hrp_bytes_valid(self.mode);
            crate::bech32::lemma_decode_of_canonical(
                a.public_key@,
                chars_of_bytes(spec_hrp_bytes(self.mode)),
                parsed_key_bytes(address@),
            );
        }
        match a.public_key(&self.mode) {
            Ok(pk) => Some(pk),
            Err(_) => None,
        }
    }

    /// Handle a PostSlate: verify the signature over payload and session
    /// challenge under the sender's key, require the recipient to be
    /// subscribed somewhere, and publish.
    pub fn handle_post_slate(
        &mut self,
        from: &str,
        to: &str,
        payload: &str,
        signature: &str,
        message_expiration_in_seconds: Option<u32>,
        dir: &Directory,
    ) -> (r: (Option<GrinboxResponse>, Vec<BrokerRequest>))
        requires
            old(self).wf(),
        ensures
            final(self).wf(),
            post_slate_step(
                *old(self),
                *final(self),
                r.0,
                r.1@,
                from@,
                to@,
                payload@,
                signature@,
                message_expiration_in_seconds,
                dir.view(),
            ),
    {
        if self.phase == SessionPhase::Closed {
            return (None, Vec::new());
        }
        let from_a = match GrinboxAddress::from_str(from, &self.mode) {
            Ok(a) => a,
            Err(_) => {
                return (Some(error_resp(GrinboxError::InvalidRequest, "invalid relay address")),
                Vec::new());
            },
        };
        let to_a = match GrinboxAddress::from_str(to, &self.mode) {
            Ok(a) => a,
            Err(_) => {
                return (Some(error_resp(GrinboxError::InvalidRequest, "invalid relay address")),
                Vec::new());
            },
        };
        let sig = match Signature::from_hex(signature) {
            Ok(s) => s,
            Err(_) => {
                return (
                Some(error_resp(GrinboxError::InvalidSignature, "signature verification failed")),
                Vec::new());
            },
        };
        let pk = match self.recover_key(&from_a, from) {
            Some(pk) => pk,
            None => {
                return (Some(error_resp(GrinboxError::UnknownError, "internal key error")),
                Vec::new());
            },
        };
        let mut challenge_text = crate::utils::owned_str(payload);
        challenge_text.append(self.challenge.as_str());
        match crate::crypto::verify_signature(challenge_text.as_str(), &sig, &pk) {
            Ok(()) => {},
            Err(_) => {
                return (
                Some(error_resp(GrinboxError::InvalidSignature, "signature verification failed")),
                Vec::new());
            },
        }
        if !dir.contains_queue(to_a.public_key.as_str()) {
            return (Some(error_resp(GrinboxError::Offline, "recipient is not subscribed")),
            Vec::new());
        }
        let reply_to = from_a.stripped();
        let mut reqs: Vec<BrokerRequest> = Vec::new();
        reqs.push(
            BrokerRequest::PostMessage {
                subject: to_a.public_key,
                payload: crate::utils::owned_str(payload),
                reply_to,
                message_expiration_in_seconds,
            },
        );
        (Some(GrinboxResponse::Okay), reqs)
    }

    /// Handle a RetrieveRelayAddr: answer from the directory.
    pub fn handle_retrieve_relay_addr(&self, abbr: &str, dir: &Directory) -> (r: GrinboxResponse)
        ensures
            retrieve_step(dir.view(), abbr@, r),
    {
        if !check_abbr(abbr) {
            return error_resp(
                GrinboxError::InvalidRelayAbbr,
                "abbreviation must be six bech32 characters",
            );
        }
        let relay_addr = dir.lookup(abbr);
        GrinboxResponse::RelayAddr { abbr: crate::utils::owned_str(abbr), relay_addr }
    }

    /// Handle an Unsubscribe: honored only while Bound and only for the
    /// subscribed address.
    pub fn handle_unsubscribe(&mut self, address: &str) -> (r: (
        Option<GrinboxResponse>,
        Vec<BrokerRequest>,
    ))
        requires
            old(self).wf(),
        ensures
            final(self).wf(),
            unsubscribe_step(*old(self), *final(self), r.0, r.1@, address@),
    {
        if self.phase == SessionPhase::Closed {
            return (None, Vec::new());
        }
        if self.phase != SessionPhase::Bound {
            return (Some(error_resp(GrinboxError::InvalidRequest, "not subscribed to that address")),
            Vec::new());
        }
        let a = match GrinboxAddress::from_str(address, &self.mode) {
            Ok(a) => a,
            Err(_) => {
                return (
                Some(error_resp(GrinboxError::InvalidRequest, "not subscribed to that address")),
                Vec::new());
            },
        };
        let matches_mine = match &self.addr {
            Some(mine) => str_eq(mine.public_key.as_str(), a.public_key.as_str()),
            None => false,
        };
        if !matches_mine {
            return (Some(error_resp(GrinboxError::InvalidRequest, "not subscribed to that address")),
            Vec::new());
        }
        let mut reqs: Vec<BrokerRequest> = Vec::new();
        reqs.push(BrokerRequest::Unsubscribe { id: self.id.clone() });
        self.phase = SessionPhase::AwaitingSubscribe;
        self.addr = None;
        (Some(GrinboxResponse::Okay), reqs)
    }

    /// Handle one client request.
    pub fn handle_request(&mut self, req: &GrinboxRequest, dir: &Directory) -> (r: (
        Option<GrinboxResponse>,
        Vec<BrokerRequest>,
    ))
        requires
            old(self).wf(),
        ensures
            final(self).wf(),
            match *req {
                GrinboxRequest::Challenge => *final(self) == *old(self) && r.1@.len() == 0 && (
                r.0 matches Some(GrinboxResponse::Challenge { str: c }) && c@ == old(
                    self,
                ).challenge@),
                GrinboxRequest::Subscribe { ref address, ref signature } => subscribe_step(
                    *old(self),
                    *final(self),
                    r.0,
                    r.1@,
                    address@,
                    signature@,
                ),
                GrinboxRequest::PostSlate {
                    ref from,
                    ref to,
                    ref str,
                    ref signature,
                    message_expiration_in_seconds,
                } => post_slate_step(
                    *old(self),
                    *final(self),
                    r.0,
                    r.1@,
                    from@,
                    to@,
                    str@,
                    signature@,
                    message_expiration_in_seconds,
                    dir.view(),
                ),
                GrinboxRequest::RetrieveRelayAddr { ref abbr } => *final(self) == *old(self)
                    && r.1@.len() == 0 && (r.0 matches Some(resp) && retrieve_step(
                    dir.view(),
                    abbr@,
                    resp,
                )),
                GrinboxRequest::Unsubscribe { ref address } => unsubscribe_step(
                    *old(self),
                    *final(self),
                    r.0,
                    r.1@,
                    address@,
                ),
            },
    {
        match req {
            GrinboxRequest::Challenge => (Some(self.handle_challenge()), Vec::new()),
            GrinboxRequest::Subscribe { address, signature } => self.handle_subscribe(
                address.as_str(),
                signature.as_str(),
            ),
            GrinboxRequest::PostSlate {
                from,
                to,
                str,
                signature,
                message_expiration_in_seconds,
            } => self.handle_post_slate(
                from.as_str(),
                to.as_str(),
                str.as_str(),
                signature.as_str(),
                *message_expiration_in_seconds,
                dir,
            ),
            GrinboxRequest::RetrieveRelayAddr { abbr } => (
                Some(self.handle_retrieve_relay_addr(abbr.as_str(), dir)),
                Vec::new(),
            ),
            GrinboxRequest::Unsubscribe { address } => self.handle_unsubscribe(address.as_str()),
        }
    }

    /// Forward a broker delivery to the client: the payload as a Slate,
    /// stamped with this session's challenge. The broker message carries
    /// only payload and reply-to, so the Slate's signature field is empty.
    /// A closed session forwards nothing.
    pub fn handle_broker_response(&self, resp: &BrokerResponse) -> (r: Option<GrinboxResponse>)
        ensures
            self.phase is Closed ==> r is None,
            !(self.phase is Closed) ==> (*resp matches BrokerResponse::Message {
                ref payload,
                ref reply_to,
                ..
            } && (r matches Some(GrinboxResponse::Slate { from, str, signature, challenge })
                && from@ == reply_to@ && str@ == payload@ && signature@ == Seq::<char>::empty()
                && challenge@ == self.challenge@)),
    {
        if self.phase == SessionPhase::Closed {
            return None;
        }
        match resp {
            BrokerResponse::Message { subject: _, payload, reply_to } => Some(
                GrinboxResponse::Slate {
                    from: reply_to.clone(),
                    str: payload.clone(),
                    signature: String::new(),
                    challenge: self.challenge.clone(),
                },
            ),
        }
    }

    /// Close the session: release the mailbox, keep nothing.
    pub fn close(&mut self) -> (reqs: Vec<BrokerRequest>)
        requires
            old(self).wf(),
        ensures
            final(self).wf(),
            final(self).phase is Closed,
            final(self).addr is None,
            final(self).id == old(self).id,
            old(self).phase is Bound ==> reqs@.len() == 1 && (
            reqs@[0] matches BrokerRequest::Unsubscribe { id } && id@ == old(self).id@),
            !(old(self).phase is Bound) ==> reqs@.len() == 0,
    {
        let mut reqs: Vec<BrokerRequest> = Vec::new();
        if self.phase == SessionPhase::Bound {
            reqs.push(BrokerRequest::Unsubscribe { id: self.id.clone() });
        }
        self.phase = SessionPhase::Closed;
        self.addr = None;
        reqs
    }
}

/// Whether a string is a usable six-character abbreviation.
fn check_abbr(s: &str) -> (r: bool)
    ensures
        r == valid_abbr(s@),
{
    let n = s.unicode_len();
    if n != 6 {
        return false;
    }
    let mut i: usize = 0;
    while i < 6
        invariant
            i <= 6 == s@.len(),
            forall|j: int| 0 <= j < i ==> is_bech32_char(#[trigger] s@[j]),
        decreases 6 - i,
    {
        match crate::bech32::bech32_val_exec(s.get_char(i)) {
            Some(_) => {},
            None => {
                proof {
                    assert(!is_bech32_char(s@[i as int]));
                }
                return false;
            },
        }
        i += 1;
    }
    true
}

/// Authentication sufficiency: a correctly signed Subscribe moves the
/// session to Bound with an Ok and a mailbox request, and a subsequent
/// correctly signed PostSlate to a subscribed recipient is accepted and
/// published.
pub proof fn lemma_authentication_sufficiency(
    pre: Session,
    mid: Session,
    post: Session,
    resp1: Option<GrinboxResponse>,
    reqs1: Seq<BrokerRequest>,
    resp2: Option<GrinboxResponse>,
    reqs2: Seq<BrokerRequest>,
    address: Seq<char>,
    signature: Seq<char>,
    from: Seq<char>,
    to: Seq<char>,
    payload: Seq<char>,
    signature2: Seq<char>,
    ttl: Option<u32>,
    dir: Seq<Seq<char>>,
)
    requires
        pre.phase is AwaitingSubscribe,
        from_str_ok(address, spec_hrp_bytes(pre.mode)),
        subscribe_auth_ok(pre.challenge@, address, signature, spec_hrp_bytes(pre.mode)),
        subscribe_step(pre, mid, resp1, reqs1, address, signature),
        from_str_ok(from, spec_hrp_bytes(mid.mode)),
        from_str_ok(to, spec_hrp_bytes(mid.mode)),
        sig_hex_ok(signature2),
        verifies_with(
            sha256_of(str_octets(payload + mid.challenge@)),
            hex_bytes(signature2),
            parsed_key_bytes(from),
        ),
        dir.contains(parsed_queue(to, spec_hrp_bytes(mid.mode))),
        post_slate_step(mid, post, resp2, reqs2, from, to, payload, signature2, ttl, dir),
    ensures
        mid.phase is Bound,
        resp1 == Some(GrinboxResponse::Okay),
        reqs1.len() == 1 && (reqs1[0] matches BrokerRequest::Subscribe { id, .. } && id@
            == pre.id@),
        resp2 == Some(GrinboxResponse::Okay),
        reqs2.len() == 1 && (reqs2[0] matches BrokerRequest::PostMessage { subject, .. }
            && subject@ == parsed_queue(to, spec_hrp_bytes(mid.mode))),
        post.phase is Bound,
{
}

/// Authentication necessity, as far as the state machine enforces it: a
/// PostSlate whose signature does not verify over payload and session
/// challenge under the sender address's key is rejected with
/// InvalidSignature and publishes nothing. (That a signature made under a
/// different key never verifies is the signature scheme's unforgeability;
/// the tests exercise it on real keys.)
pub proof fn lemma_authentication_necessity(
    pre: Session,
    post: Session,
    resp: Option<GrinboxResponse>,
    reqs: Seq<BrokerRequest>,
    from: Seq<char>,
    to: Seq<char>,
    payload: Seq<char>,
    signature: Seq<char>,
    ttl: Option<u32>,
    dir: Seq<Seq<char>>,
)
    requires
        !(pre.phase is Closed),
        from_str_ok(from, spec_hrp_bytes(pre.mode)),
        from_str_ok(to, spec_hrp_bytes(pre.mode)),
        !verifies_with(
            sha256_of(str_octets(payload + pre.challenge@)),
            hex_bytes(signature),
            parsed_key_bytes(from),
        ),
        post_slate_step(pre, post, resp, reqs, from, to, payload, signature, ttl, dir),
    ensures
        post == pre,
        is_error_resp(resp, GrinboxError::InvalidSignature, "signature verification failed"@),
        reqs.len() == 0,
{
}

} // verus!
