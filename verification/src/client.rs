//! The control-socket client as a protocol state machine.
//!
//! The daemon speaks over one datagram socket: synchronous replies to
//! commands and unsolicited notifications arrive interleaved. This
//! module holds every protocol decision — whether a payload is the
//! awaited reply or a notification to queue, the attach/detach
//! handshake, the one-command-in-flight rule — as verified functions
//! over plain values. The socket itself, and the blocking calls on
//! it, live in the unverified driver, which feeds received payloads
//! in and carries commands out.
//!
//! The discriminator between reply and notification, which the wire
//! format only partially fixes: a payload opening with a priority
//! marker `<digits>` is always a notification; an unmarked payload is
//! the awaited reply while a request is outstanding, and a
//! notification otherwise (possible only while attached).

use vstd::prelude::*;
use crate::events::str_eq;
use crate::mac::{MacAddr, mac_str};

verus! {

/// A protocol-level failure of a synchronous call.
#[derive(Debug, Clone, Copy, PartialEq, Eq, Structural)]
pub enum ProtocolError {
    /// No reply arrived in time.
    Timeout,
    /// A request was begun while another was outstanding.
    AlreadyPending,
    /// The daemon's reply was not the one the handshake expects.
    UnexpectedReply,
    /// An operation valid only while attached was called detached.
    NotAttached,
}

/// The mathematical state of a client: its subscription phase,
/// whether a request is outstanding, and the notifications queued
/// for later delivery, oldest first.
pub struct ClientState {
    pub attached: bool,
    pub awaiting: bool,
    pub pending: Seq<Seq<char>>,
}

/// A digit of a priority marker.
pub open spec fn is_digit_char(c: char) -> bool {
    48 <= c as u32 && c as u32 <= 57  // '0' ..= '9'
}

/// The first position at or after `i` that holds no digit, or the
/// length of `p`.
pub open spec fn digits_end(p: Seq<char>, i: int) -> int
    decreases p.len() - i,
{
    if i >= p.len() {
        p.len() as int
    } else if is_digit_char(p[i]) {
        digits_end(p, i + 1)
    } else {
        i
    }
}

/// Whether a payload opens with a priority marker: `<`, one or more
/// digits, `>`.
pub open spec fn is_marked(p: Seq<char>) -> bool {
    p.len() > 0 && p[0] == '<' && {
        let e = digits_end(p, 1);
        1 < e < p.len() && p[e] == '>'
    }
}

/// The classification rule: a payload is a notification iff it
/// carries a priority marker, or no request is outstanding and the
/// client is attached. While a request is outstanding, every
/// unmarked payload is the awaited reply.
pub open spec fn is_notification(p: Seq<char>, c: ClientState) -> bool {
    is_marked(p) || (c.attached && !c.awaiting)
}

/// A new request may begin only while none is outstanding.
pub open spec fn begin_request_allowed(c: ClientState) -> bool {
    !c.awaiting
}

/// Beginning a request marks it outstanding.
pub open spec fn begin_request_step(c: ClientState) -> ClientState {
    ClientState { awaiting: true, ..c }
}

/// Delivery of the reply — or giving the request up — resolves it.
pub open spec fn resolve_step(c: ClientState) -> ClientState {
    ClientState { awaiting: false, ..c }
}

/// A notification is queued behind those already pending.
pub open spec fn queue_step(c: ClientState, p: Seq<char>) -> ClientState {
    ClientState { pending: c.pending.push(p), ..c }
}

/// Polling delivers the oldest pending notification.
pub open spec fn dequeue_step(c: ClientState) -> ClientState {
    ClientState { pending: c.pending.drop_first(), ..c }
}

/// A confirmed `ATTACH` turns the subscription on.
pub open spec fn attach_step(c: ClientState) -> ClientState {
    ClientState { attached: true, ..c }
}

/// A confirmed `DETACH` turns it off.
pub open spec fn detach_step(c: ClientState) -> ClientState {
    ClientState { attached: false, ..c }
}

/// Whether a payload opens with a priority marker `<digits>`.
pub fn payload_is_marked(p: &str) -> (b: bool)
    ensures
        b == is_marked(p@),
{
    let n = p.unicode_len();
    if n == 0 {
        return false;
    }
    if p.get_char(0) != '<' {
        return false;
    }
    let mut i: usize = 1;
    while i < n
        invariant
            1 <= i <= n,
            n == p@.len(),
            p@[0] == '<',
            forall|k: int| 1 <= k < i ==> is_digit_char(p@[k]),
        decreases n - i,
    {
        let c = p.get_char(i);
        let u = c as u32;
        if !(48 <= u && u <= 57) {
            proof {
                lemma_digits_end_is(p@, 1, i as int);
            }
            return i > 1 && c == '>';
        }
        i += 1;
    }
    proof {
        lemma_digits_end_is(p@, 1, n as int);
    }
    false
}

/// `digits_end` is pinned down by a witness: digits everywhere before
/// `j`, and none at `j` unless `j` is the length.
proof fn lemma_digits_end_is(p: Seq<char>, i: int, j: int)
    requires
        0 <= i <= j <= p.len(),
        forall|k: int| i <= k < j ==> is_digit_char(p[k]),
        j < p.len() ==> !is_digit_char(p[j]),
    ensures
        digits_end(p, i) == j,
    decreases j - i,
{
    if i < j {
        lemma_digits_end_is(p, i + 1, j);
    }
}

/// A control-socket client, reduced to its protocol state. One
/// instance mirrors one daemon connection; the driver that owns the
/// socket calls in with each payload the transport delivers.
pub struct HostAPMonitor {
    attached: bool,
    awaiting: bool,
    pending: Vec<String>,
}

impl View for HostAPMonitor {
    type V = ClientState;

    closed spec fn view(&self) -> ClientState {
        ClientState {
            attached: self.attached,
            awaiting: self.awaiting,
            pending: self.pending.deep_view(),
        }
    }
}

impl HostAPMonitor {
    /// A fresh client for a newly opened socket: unattached, no
    /// request outstanding, nothing pending.
    pub fn connect() -> (m: HostAPMonitor)
        ensures
            !m@.attached,
            !m@.awaiting,
            m@.pending == Seq::<Seq<char>>::empty(),
    {
        let m = HostAPMonitor { attached: false, awaiting: false, pending: Vec::new() };
        proof {
            assert(m@.pending =~~= Seq::<Seq<char>>::empty());
        }
        m
    }

    /// Whether the subscription is active.
    pub fn is_attached(&self) -> (b: bool)
        ensures
            b == self@.attached,
    {
        self.attached
    }

    /// Whether a request is outstanding.
    pub fn is_awaiting(&self) -> (b: bool)
        ensures
            b == self@.awaiting,
    {
        self.awaiting
    }

    /// Whether a notification is queued for delivery.
    pub fn has_pending(&self) -> (b: bool)
        ensures
            b == (self@.pending.len() > 0),
    {
        self.pending.len() > 0
    }

    /// Begins a synchronous request. Fails with `AlreadyPending`,
    /// changing nothing, exactly when a prior request is unresolved;
    /// otherwise the request becomes the outstanding one and the
    /// command may be sent.
    pub fn begin_request(&mut self) -> (r: Result<(), ProtocolError>)
        ensures
            match r {
                Ok(()) => begin_request_allowed(old(self)@) && final(self)@
                    == begin_request_step(old(self)@),
                Err(e) => e == ProtocolError::AlreadyPending && !begin_request_allowed(
                    old(self)@,
                ) && final(self)@ == old(self)@,
            },
    {
        if self.awaiting {
            return Err(ProtocolError::AlreadyPending);
        }
        self.awaiting = true;
        Ok(())
    }

    /// Takes one payload received while the request is outstanding.
    /// A marked payload is a notification: it is queued behind those
    /// already pending, in arrival order, and the wait goes on. An
    /// unmarked payload is the awaited reply, returned verbatim; the
    /// request is resolved.
    pub fn handle_payload(&mut self, payload: String) -> (r: Option<String>)
        requires
            old(self)@.awaiting,
        ensures
            match r {
                None => is_notification(payload@, old(self)@) && final(self)@ == queue_step(
                    old(self)@,
                    payload@,
                ),
                Some(reply) => !is_notification(payload@, old(self)@) && reply@ == payload@
                    && final(self)@ == resolve_step(old(self)@),
            },
    {
        if payload_is_marked(payload.as_str()) {
            let ghost before = self@;
            proof {
                assert(is_notification(payload@, before));
            }
            self.pending.push(payload);
            proof {
                assert(self@.pending =~~= before.pending.push(payload@));
            }
            None
        } else {
            self.awaiting = false;
            Some(payload)
        }
    }

    /// Gives up the outstanding request after its deadline: the
    /// request is resolved and the caller reports the returned
    /// `Timeout`.
    pub fn request_timed_out(&mut self) -> (e: ProtocolError)
        requires
            old(self)@.awaiting,
        ensures
            e == ProtocolError::Timeout,
            final(self)@ == resolve_step(old(self)@),
    {
        self.awaiting = false;
        ProtocolError::Timeout
    }

    /// Interprets the reply to `ATTACH`: `OK\n` turns the
    /// subscription on; any other reply is `UnexpectedReply` and
    /// changes nothing.
    pub fn finish_attach(&mut self, reply: &str) -> (r: Result<(), ProtocolError>)
        ensures
            match r {
                Ok(()) => reply@ == "OK\n"@ && final(self)@ == attach_step(old(self)@),
                Err(e) => e == ProtocolError::UnexpectedReply && reply@ != "OK\n"@ && final(self)@ == old(self)@,
            },
    {
        if str_eq(reply, "OK\n") {
            self.attached = true;
            Ok(())
        } else {
            Err(ProtocolError::UnexpectedReply)
        }
    }

    /// Begins the `DETACH` handshake. Fails with `NotAttached`,
    /// before anything is sent, when no subscription is active; fails
    /// with `AlreadyPending` while a request is unresolved; otherwise
    /// the request becomes outstanding and `DETACH` may be sent.
    pub fn begin_detach(&mut self) -> (r: Result<(), ProtocolError>)
        ensures
            match r {
                Ok(()) => old(self)@.attached && begin_request_allowed(old(self)@) && final(self)@ == begin_request_step(old(self)@),
                Err(e) => final(self)@ == old(self)@ && if !old(self)@.attached {
                    e == ProtocolError::NotAttached
                } else {
                    e == ProtocolError::AlreadyPending && !begin_request_allowed(old(self)@)
                },
            },
    {
        if !self.attached {
            return Err(ProtocolError::NotAttached);
        }
        self.begin_request()
    }

    /// Interprets the reply to `DETACH`: `OK\n` clears the attached
    /// state; any other reply is `UnexpectedReply` and changes
    /// nothing.
    pub fn finish_detach(&mut self, reply: &str) -> (r: Result<(), ProtocolError>)
        ensures
            match r {
                Ok(()) => reply@ == "OK\n"@ && final(self)@ == detach_step(old(self)@),
                Err(e) => e == ProtocolError::UnexpectedReply && reply@ != "OK\n"@ && final(self)@ == old(self)@,
            },
    {
        if str_eq(reply, "OK\n") {
            self.attached = false;
            Ok(())
        } else {
            Err(ProtocolError::UnexpectedReply)
        }
    }

    /// Interprets the reply to `PING`: exactly `PONG\n` succeeds.
    pub fn ping(reply: &str) -> (r: Result<(), ProtocolError>)
        ensures
            match r {
                Ok(()) => reply@ == "PONG\n"@,
                Err(e) => e == ProtocolError::UnexpectedReply && reply@ != "PONG\n"@,
            },
    {
        if str_eq(reply, "PONG\n") {
            Ok(())
        } else {
            Err(ProtocolError::UnexpectedReply)
        }
    }

    /// Delivers the next notification. Valid only while attached;
    /// detached, it fails `NotAttached` and changes nothing. The
    /// pending queue is drained first, oldest first; the driver calls
    /// the transport only when the queue is empty, and hands in what
    /// it received, if anything. Every payload received here is a
    /// notification under the classification rule, returned verbatim.
    pub fn poll_event(&mut self, received: Option<String>) -> (r: Result<
        Option<String>,
        ProtocolError,
    >)
        requires
            received is Some ==> old(self)@.attached && !old(self)@.awaiting && old(
                self,
            )@.pending.len() == 0,
        ensures
            match r {
                Err(e) => e == ProtocolError::NotAttached && !old(self)@.attached && final(self)@ == old(self)@,
                Ok(opt) => old(self)@.attached && match opt {
                    None => received is None && old(self)@.pending.len() == 0 && final(self)@
                        == old(self)@,
                    Some(ev) => if old(self)@.pending.len() > 0 {
                        ev@ == old(self)@.pending[0] && final(self)@ == dequeue_step(
                            old(self)@,
                        )
                    } else {
                        (match received {
                            Some(p) => ev@ == p@ && is_notification(ev@, old(self)@),
                            None => false,
                        }) && final(self)@ == old(self)@
                    },
                },
            },
    {
        if !self.attached {
            return Err(ProtocolError::NotAttached);
        }
        if self.pending.len() > 0 {
            let ghost before = self@;
            let ev = self.pending.remove(0);
            proof {
                assert(ev@ == before.pending[0]);
                assert(self@.pending =~~= before.pending.drop_first());
            }
            return Ok(Some(ev));
        }
        match received {
            Some(p) => Ok(Some(p)),
            None => Ok(None),
        }
    }
}

/// Builds the station-details command for an address: `STA ` followed
/// by the address in lowercase colon-separated hex.
pub fn station_info_command(mac: &MacAddr) -> (r: String)
    requires
        mac.wf(),
    ensures
        r@ == "STA "@ + mac_str(mac@),
{
    let mut r = "STA ".to_owned();
    let hx = mac.to_hex_string();
    r.append(hx.as_str());
    r
}

/// The wire command that subscribes to the notification stream.
pub fn attach_command() -> (r: &'static str)
    ensures
        r@ == "ATTACH"@,
{
    "ATTACH"
}

/// The wire command that cancels the subscription.
pub fn detach_command() -> (r: &'static str)
    ensures
        r@ == "DETACH"@,
{
    "DETACH"
}

/// The wire command that checks the daemon is alive.
pub fn ping_command() -> (r: &'static str)
    ensures
        r@ == "PING"@,
{
    "PING"
}

/// One command in flight: once a request has begun, no further one
/// may begin until it resolves; resolving admits the next.
pub proof fn lemma_one_request_in_flight(c: ClientState)
    requires
        begin_request_allowed(c),
    ensures
        !begin_request_allowed(begin_request_step(c)),
        begin_request_allowed(resolve_step(begin_request_step(c))),
{
}

/// Notifications queued while a request is outstanding are kept in
/// arrival order behind those already pending, and queuing touches
/// neither the subscription nor the outstanding request; with nothing
/// pending beforehand, polling then delivers them oldest first and
/// leaves nothing behind.
pub proof fn lemma_notifications_kept_in_order(c: ClientState, n1: Seq<char>, n2: Seq<char>)
    ensures
        queue_step(queue_step(c, n1), n2).pending == c.pending + seq![n1, n2],
        queue_step(queue_step(c, n1), n2).attached == c.attached,
        queue_step(queue_step(c, n1), n2).awaiting == c.awaiting,
        c.pending.len() == 0 ==> {
            let q = queue_step(queue_step(c, n1), n2);
            &&& q.pending[0] == n1
            &&& dequeue_step(q).pending[0] == n2
            &&& dequeue_step(dequeue_step(q)).pending.len() == 0
        },
{
    assert(queue_step(queue_step(c, n1), n2).pending =~~= c.pending + seq![n1, n2]);
    if c.pending.len() == 0 {
        let q = queue_step(queue_step(c, n1), n2);
        assert(dequeue_step(q).pending[0] == q.pending[1]);
    }
}

/// The subscription is re-establishable: from a client with no
/// request outstanding, the attach handshake succeeds, a detach may
/// then begin and succeed, and a further attach succeeds again.
pub proof fn lemma_reattach(c: ClientState)
    requires
        begin_request_allowed(c),
    ensures
        ({
            let a = attach_step(resolve_step(begin_request_step(c)));
            let d = detach_step(resolve_step(begin_request_step(a)));
            let a2 = attach_step(resolve_step(begin_request_step(d)));
            &&& a.attached && begin_request_allowed(a)
            &&& !d.attached && begin_request_allowed(d)
            &&& a2.attached && begin_request_allowed(a2)
        }),
{
}

} // verus!
