use vstd::prelude::*;
use crate::key::ClientKey;

verus! {

/// How long the send side waits on its inbound queue before counting an idle tick.
pub const INBOUND_WAIT_MS: u64 = 30;

/// How long the receive side waits on its upstream socket before looking at the
/// expiry flag.
pub const UPSTREAM_READ_WAIT_MS: u64 = 130;

/// Consecutive idle ticks after which the send side declares its session expired.
pub const IDLE_TICK_LIMIT: u64 = 10;

/// Size of the buffer an upstream datagram is received into.
pub const DATAGRAM_BUFFER_LEN: usize = 65536;

/// What the send side's wait on its inbound queue produced.
pub enum Inbound {
    /// A payload from the client.
    Packet(Vec<u8>),
    /// The wait ran out with nothing queued.
    Idle,
}

/// What the send side does next.
#[derive(PartialEq, Eq, Debug)]
pub enum SendAction {
    /// Write this payload, unchanged, to the remote endpoint and wait again.
    Forward(Vec<u8>),
    /// Wait on the inbound queue again.
    Wait,
    /// Set the session's expiry flag and stop; the inbound queue closes.
    Expire,
}

/// The send side of a session: a count of consecutive idle ticks.
pub struct SendSide {
    idle_ticks: u64,
}

impl SendSide {
    /// Consecutive idle ticks seen since the last payload.
    pub closed spec fn ticks(&self) -> nat {
        self.idle_ticks as nat
    }

    /// The send side has declared its session expired.
    pub open spec fn expired(&self) -> bool {
        self.ticks() >= IDLE_TICK_LIMIT
    }

    pub open spec fn wf(&self) -> bool {
        self.ticks() <= IDLE_TICK_LIMIT
    }

    /// A send side that has seen no idle tick.
    pub fn new() -> (s: SendSide)
        ensures
            s.wf(),
            s.ticks() == 0,
    {
        SendSide { idle_ticks: 0 }
    }

    /// The number of consecutive idle ticks.
    pub fn idle_ticks(&self) -> (n: u64)
        ensures
            n == self.ticks(),
    {
        self.idle_ticks
    }

    /// Takes one outcome of the wait on the inbound queue and says what to do.
    /// A payload is forwarded unchanged and resets the count; an idle tick
    /// increments it, and the tick that brings it to `IDLE_TICK_LIMIT` expires
    /// the session.
    pub fn step(&mut self, ev: Inbound) -> (a: SendAction)
        requires
            old(self).wf(),
            !old(self).expired(),
        ensures
            final(self).wf(),
            match ev {
                Inbound::Packet(p) => a == SendAction::Forward(p) && final(self).ticks() == 0,
                Inbound::Idle => {
                    &&& final(self).ticks() == old(self).ticks() + 1
                    &&& final(self).expired() ==> a == SendAction::Expire
                    &&& !final(self).expired() ==> a == SendAction::Wait
                },
            },
    {
        match ev {
            Inbound::Packet(p) => {
                self.idle_ticks = 0;
                SendAction::Forward(p)
            },
            Inbound::Idle => {
                self.idle_ticks = self.idle_ticks + 1;
                if self.idle_ticks >= IDLE_TICK_LIMIT {
                    SendAction::Expire
                } else {
                    SendAction::Wait
                }
            },
        }
    }
}

/// The send side's run over a sequence of wait outcomes (`None` for an idle
/// tick), starting from `ticks` idle ticks: the count it ends with, whether it
/// expired, and the payloads it forwarded in order. Outcomes after expiry are
/// never taken.
pub open spec fn send_run(ticks: nat, evs: Seq<Option<Seq<u8>>>) -> (nat, bool, Seq<Seq<u8>>)
    decreases evs.len(),
{
    if evs.len() == 0 {
        (ticks, false, seq![])
    } else {
        match evs[0] {
            Some(p) => {
                let r = send_run(0, evs.drop_first());
                (r.0, r.1, seq![p] + r.2)
            },
            None => {
                if ticks + 1 >= IDLE_TICK_LIMIT {
                    (ticks + 1, true, seq![])
                } else {
                    send_run(ticks + 1, evs.drop_first())
                }
            },
        }
    }
}

/// The wait outcome `ev` as `send_run` takes it.
pub open spec fn inbound_view(ev: Inbound) -> Option<Seq<u8>> {
    match ev {
        Inbound::Packet(p) => Some(p@),
        Inbound::Idle => None,
    }
}

/// The wait outcomes `evs` as `send_run` takes them.
pub open spec fn events_view(evs: Seq<Inbound>) -> Seq<Option<Seq<u8>>> {
    evs.map_values(|e: Inbound| inbound_view(e))
}

/// The contents of the payloads `ps`.
pub open spec fn bytes_view(ps: Seq<Vec<u8>>) -> Seq<Seq<u8>> {
    ps.map_values(|p: Vec<u8>| p@)
}

/// Runs a fresh send side over the wait outcomes `events`, as its worker does,
/// until it expires or the outcomes run out. Returns the payloads it forwarded,
/// in order, and whether it expired: exactly what `send_run` says.
pub fn forward_all(events: Vec<Inbound>) -> (r: (Vec<Vec<u8>>, bool))
    ensures
        bytes_view(r.0@) == send_run(
            0,
            events_view(events@),
        ).2,
        r.1 == send_run(0, events_view(events@)).1,
{
    let ghost all = events_view(events@);
    let mut rest = events;
    let mut side = SendSide::new();
    let mut out: Vec<Vec<u8>> = Vec::new();
    while rest.len() > 0
        invariant
            all == events_view(events@),
            side.wf(),
            !side.expired(),
            send_run(0, all) == ({
                let r = send_run(side.ticks(), events_view(rest@));
                (r.0, r.1, bytes_view(out@) + r.2)
            }),
        decreases rest.len(),
    {
        let ghost before = events_view(rest@);
        let ghost out_before = bytes_view(out@);
        let ghost t = side.ticks();
        let ev = rest.remove(0);
        assert(before.drop_first() =~= events_view(rest@));
        assert(before[0] == inbound_view(ev));
        let a = side.step(ev);
        match a {
            SendAction::Forward(p) => {
                out.push(p);
                assert(bytes_view(out@) =~= out_before.push(p@));
                assert(out_before + seq![p@] + send_run(0, events_view(rest@)).2
                    =~= out_before + (seq![p@] + send_run(0, events_view(rest@)).2));
            },
            SendAction::Wait => {},
            SendAction::Expire => {
                assert(before[0] is None);
                assert(t + 1 >= IDLE_TICK_LIMIT);
                assert(send_run(t, before) == (t + 1, true, Seq::<Seq<u8>>::empty()));
                assert(out_before + Seq::<Seq<u8>>::empty() =~= out_before);
                assert(bytes_view(out@) == out_before);
                return (out, true);
            },
        }
    }
    assert(bytes_view(out@) + Seq::<Seq<u8>>::empty() =~= bytes_view(out@));
    (out, false)
}

/// The payloads among the wait outcomes, in order.
pub open spec fn payloads(evs: Seq<Option<Seq<u8>>>) -> Seq<Seq<u8>>
    decreases evs.len(),
{
    if evs.len() == 0 {
        seq![]
    } else {
        match evs[0] {
            Some(p) => seq![p] + payloads(evs.drop_first()),
            None => payloads(evs.drop_first()),
        }
    }
}

/// Every stretch of `IDLE_TICK_LIMIT` consecutive outcomes holds a payload:
/// the client never stays silent for the whole expiry period.
pub open spec fn gaps_short(evs: Seq<Option<Seq<u8>>>) -> bool {
    forall|i: int|
        0 <= i && i + IDLE_TICK_LIMIT <= evs.len() ==> #[trigger] has_packet_in(evs, i, i
            + IDLE_TICK_LIMIT)
}

/// Some outcome in `lo .. hi` is a payload.
pub open spec fn has_packet_in(evs: Seq<Option<Seq<u8>>>, lo: int, hi: int) -> bool {
    exists|j: int| lo <= j < hi && 0 <= j < evs.len() && (#[trigger] evs[j]) is Some
}

proof fn lemma_short_gaps_from(ticks: nat, evs: Seq<Option<Seq<u8>>>)
    requires
        ticks < IDLE_TICK_LIMIT,
        gaps_short(evs),
        evs.len() + ticks < IDLE_TICK_LIMIT || has_packet_in(evs, 0, IDLE_TICK_LIMIT - ticks),
    ensures
        !send_run(ticks, evs).1,
        send_run(ticks, evs).2 == payloads(evs),
    decreases evs.len(),
{
    if evs.len() > 0 {
        let rest = evs.drop_first();
        assert forall|i: int| 0 <= i && i + IDLE_TICK_LIMIT <= rest.len() implies #[trigger] has_packet_in(
            rest,
            i,
            i + IDLE_TICK_LIMIT,
        ) by {
            assert(has_packet_in(evs, i + 1, i + 1 + IDLE_TICK_LIMIT));
            let j = choose|j: int|
                i + 1 <= j < i + 1 + IDLE_TICK_LIMIT && 0 <= j < evs.len() && (#[trigger] evs[j]) is Some;
            assert(rest[j - 1] == evs[j]);
        }
        match evs[0] {
            Some(p) => {
                if rest.len() >= IDLE_TICK_LIMIT {
                    assert(has_packet_in(evs, 1, 1 + IDLE_TICK_LIMIT));
                    let j = choose|j: int|
                        1 <= j < 1 + IDLE_TICK_LIMIT && 0 <= j < evs.len() && (#[trigger] evs[j]) is Some;
                    assert(rest[j - 1] == evs[j]);
                    assert(has_packet_in(rest, 0, IDLE_TICK_LIMIT - 0));
                }
                lemma_short_gaps_from(0, rest);
            },
            None => {
                if evs.len() + ticks >= IDLE_TICK_LIMIT {
                    let j = choose|j: int|
                        0 <= j < IDLE_TICK_LIMIT - ticks && 0 <= j < evs.len() && (#[trigger] evs[j]) is Some;
                    assert(j != 0);
                    assert(rest[j - 1] == evs[j]);
                    assert(has_packet_in(rest, 0, IDLE_TICK_LIMIT - (ticks + 1)));
                }
                lemma_short_gaps_from(ticks + 1, rest);
            },
        }
    }
}

/// A session whose client never stays silent for `IDLE_TICK_LIMIT` consecutive
/// waits never expires, and forwards every payload, in the order the client
/// sent them, through its one upstream socket.
pub proof fn lemma_short_gaps_keep_session(evs: Seq<Option<Seq<u8>>>)
    requires
        gaps_short(evs),
    ensures
        !send_run(0, evs).1,
        send_run(0, evs).2 == payloads(evs),
{
    if evs.len() >= IDLE_TICK_LIMIT {
        assert(has_packet_in(evs, 0, 0 + IDLE_TICK_LIMIT));
    }
    lemma_short_gaps_from(0, evs);
}

proof fn lemma_silence_from(ticks: nat, evs: Seq<Option<Seq<u8>>>)
    requires
        ticks < IDLE_TICK_LIMIT,
        evs.len() >= IDLE_TICK_LIMIT - ticks,
        forall|i: int| 0 <= i < IDLE_TICK_LIMIT - ticks ==> (#[trigger] evs[i]) is None,
    ensures
        send_run(ticks, evs).1,
        send_run(ticks, evs).2 == Seq::<Seq<u8>>::empty(),
    decreases evs.len(),
{
    let rest = evs.drop_first();
    assert(evs[0] is None);
    if ticks + 1 < IDLE_TICK_LIMIT {
        assert forall|i: int| 0 <= i < IDLE_TICK_LIMIT - (ticks + 1) implies (#[trigger] rest[i]) is None by {
            assert(evs[i + 1] is None);
        }
        lemma_silence_from(ticks + 1, rest);
    }
}

/// A session whose client stays silent for `IDLE_TICK_LIMIT` consecutive waits
/// expires and forwards nothing more: a later packet from that client finds
/// the session's queue closed.
pub proof fn lemma_long_silence_expires(evs: Seq<Option<Seq<u8>>>)
    requires
        evs.len() >= IDLE_TICK_LIMIT,
        forall|i: int| 0 <= i < IDLE_TICK_LIMIT ==> (#[trigger] evs[i]) is None,
    ensures
        send_run(0, evs).1,
        send_run(0, evs).2 == Seq::<Seq<u8>>::empty(),
{
    lemma_silence_from(0, evs);
}

/// What the receive side's read on its upstream socket produced.
pub enum Upstream {
    /// A datagram of this many bytes from the remote endpoint, at the start of
    /// the receive buffer.
    Datagram(usize),
    /// The read ran out with nothing received.
    ReadTimeout,
}

/// A read outcome that fits the receive buffer `buf`.
pub open spec fn fits(buf: Seq<u8>, ev: Upstream) -> bool {
    match ev {
        Upstream::Datagram(n) => n <= buf.len(),
        Upstream::ReadTimeout => true,
    }
}

/// What the receive side does next.
#[derive(PartialEq, Eq, Debug)]
pub enum ReceiveAction {
    /// Queue this reply, unchanged, for the client with this key, and read again.
    Relay(ClientKey, Vec<u8>),
    /// Read again.
    KeepReading,
    /// The session has expired: stop.
    Stop,
}

/// Decides what the receive side of the session of `key` does with one outcome
/// of its read into `buf`, given the session's expiry flag. A datagram is
/// always relayed to that client, byte for byte, whatever the flag says; a
/// timeout stops the receive side once the flag is set.
pub fn on_upstream(key: ClientKey, buf: &[u8], ev: Upstream, expired: bool) -> (a: ReceiveAction)
    requires
        fits(buf@, ev),
    ensures
        match ev {
            Upstream::Datagram(n) => relays(a, key, buf@.take(n as int)),
            Upstream::ReadTimeout => a == (if expired {
                ReceiveAction::Stop
            } else {
                ReceiveAction::KeepReading
            }),
        },
{
    match ev {
        Upstream::Datagram(n) => ReceiveAction::Relay(key, datagram_payload(buf, n)),
        Upstream::ReadTimeout => {
            if expired {
                ReceiveAction::Stop
            } else {
                ReceiveAction::KeepReading
            }
        },
    }
}

/// The datagram that a read of `n` bytes left at the start of `buf`.
pub fn datagram_payload(buf: &[u8], n: usize) -> (p: Vec<u8>)
    requires
        n <= buf@.len(),
    ensures
        p@ == buf@.take(n as int),
{
    let mut p: Vec<u8> = Vec::with_capacity(n);
    let mut i: usize = 0;
    while i < n
        invariant
            n <= buf@.len(),
            i <= n,
            p@ == buf@.take(i as int),
        decreases n - i,
    {
        p.push(buf[i]);
        i = i + 1;
        assert(p@ =~= buf@.take(i as int));
    }
    p
}

/// `a` relays exactly `reply` to the client with key `key`.
pub open spec fn relays(a: ReceiveAction, key: ClientKey, reply: Seq<u8>) -> bool {
    match a {
        ReceiveAction::Relay(k, p) => k == key && p@ == reply,
        _ => false,
    }
}

/// A reply of up to `DATAGRAM_BUFFER_LEN` bytes that the remote endpoint sends
/// fits the receive buffer whole: the read of it is one `on_upstream` accepts,
/// and whatever `on_upstream` returns for it relays exactly that reply, with
/// nothing cut off or added, to the session's client.
pub proof fn lemma_reply_relayed_whole(key: ClientKey, buf: Seq<u8>, reply: Seq<u8>, a: ReceiveAction)
    requires
        buf.len() == DATAGRAM_BUFFER_LEN,
        reply.len() <= DATAGRAM_BUFFER_LEN,
        buf.take(reply.len() as int) == reply,
        relays(a, key, buf.take((reply.len() as usize) as int)),
    ensures
        fits(buf, Upstream::Datagram(reply.len() as usize)),
        a matches ReceiveAction::Relay(k, p) && k == key && p@ == reply && p@.len() == reply.len(),
{
}

} // verus!
