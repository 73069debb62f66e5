use crate::packet::{Packet, PacketModel, valid_payload, wire};
use crate::xmodem_file_adapter::{AdapterModel, XModemFileAdapter, fresh, pull_step};
use vstd::prelude::*;

verus! {

/// Positive acknowledgement: the receiver took the last packet.
pub const ACKNOWLEDGE: u8 = 0x06;

/// Negative acknowledgement: the receiver asks for a packet (again).
pub const NEGATIVE_ACKNOWLEDGE: u8 = 0x15;

/// How many times one packet is written, by default, before the transfer is
/// given up.
pub const MAX_ATTEMPTS: usize = 10;

/// How long, by default, to wait for one response, in milliseconds.
pub const TIMEOUT_MILLIS: u64 = 10000;

/// How long, by default, to sleep between two reads while waiting, in
/// milliseconds.
pub const POLL_DELAY_MILLIS: u64 = 500;

/// The limits a sender works within.
#[derive(PartialEq, Eq, Structural, Clone, Copy, Debug)]
pub struct Timing {
    /// Writes of one packet before the transfer is given up.
    pub max_attempts: usize,
    /// How long to wait for one response, in milliseconds.
    pub timeout_millis: u64,
    /// How long to sleep between two reads while waiting, in milliseconds.
    pub poll_delay_millis: u64,
}

/// The outcome of waiting for one response byte.
#[derive(PartialEq, Eq, Structural, Clone, Copy, Debug)]
pub enum Reply {
    Byte(u8),
    TimedOut,
    Failed,
}

/// The outcome of one read from the link.
#[derive(PartialEq, Eq, Structural, Clone, Copy, Debug)]
pub enum ReadOutcome {
    /// A byte came in.
    Byte(u8),
    /// No byte has come in yet.
    Nothing,
    /// The link reported an error.
    Failed,
}

/// Why a transfer was given up.
#[derive(PartialEq, Eq, Structural, Clone, Copy, Debug)]
pub enum Failure {
    /// The receiver did not open the transfer with a negative acknowledgement.
    Handshake,
    /// Writing to or reading from the link failed.
    Link,
    /// One packet went unacknowledged as often as attempts are allowed.
    RetriesExhausted,
}

/// Where a sender stands.
#[derive(PartialEq, Eq, Structural, Clone, Copy, Debug)]
pub enum Phase {
    AwaitingHandshake,
    Writing,
    AwaitingAck,
    Succeeded,
    Failed(Failure),
}

/// What a sender asks of its link next.
#[derive(Debug)]
pub enum Action {
    /// Wait for one response byte.
    AwaitResponse,
    /// Write these bytes.
    Write(Vec<u8>),
    /// The transfer is over: successfully, or not.
    Finish(bool),
}

/// One call a sender made on its link, as far as the transfer depends on it.
pub enum LinkCall {
    /// These bytes were written; `false` where the link reported an error.
    Wrote(Seq<u8>, bool),
    /// One read, with its outcome.
    Read(ReadOutcome),
    /// A wait for a response ran out of time.
    WaitTimedOut,
}

/// What a response byte says: `Some(true)` for an acknowledgement,
/// `Some(false)` for a negative one, `None` for any other byte.
pub open spec fn meaning(byte: u8) -> Option<bool> {
    if byte == ACKNOWLEDGE {
        Some(true)
    } else if byte == NEGATIVE_ACKNOWLEDGE {
        Some(false)
    } else {
        None
    }
}

/// Reads one response byte.
pub fn classify(byte: u8) -> (r: Option<bool>)
    ensures
        r == meaning(byte),
{
    if byte == ACKNOWLEDGE {
        Some(true)
    } else if byte == NEGATIVE_ACKNOWLEDGE {
        Some(false)
    } else {
        None
    }
}

/// Whether `reply` is a byte that is neither acknowledgement.
pub open spec fn is_stray(reply: Reply) -> bool {
    reply matches Reply::Byte(b) && meaning(b) is None
}

/// What one read says while waiting for a response: the reply to hand on,
/// or `None` to sleep and read again. Before the transfer opens, stray
/// bytes are passed over.
pub open spec fn poll_meaning(read: ReadOutcome, handshake: bool) -> Option<Reply> {
    match read {
        ReadOutcome::Failed => Some(Reply::Failed),
        ReadOutcome::Nothing => None,
        ReadOutcome::Byte(b) => if handshake && meaning(b) is None {
            None
        } else {
            Some(Reply::Byte(b))
        },
    }
}

/// Decides on one read while waiting for a response.
pub fn poll_step(read: ReadOutcome, handshake: bool) -> (r: Option<Reply>)
    ensures
        r == poll_meaning(read, handshake),
{
    match read {
        ReadOutcome::Failed => Some(Reply::Failed),
        ReadOutcome::Nothing => None,
        ReadOutcome::Byte(b) => if handshake && classify(b).is_none() {
            None
        } else {
            Some(Reply::Byte(b))
        },
    }
}

/// The time slept between two reads of one wait: the poll delay, but at
/// least a millisecond.
pub open spec fn delay_of(t: Timing) -> nat {
    if t.poll_delay_millis == 0 {
        1
    } else {
        t.poll_delay_millis as nat
    }
}

/// The most reads one wait makes: as many as sleeps of the poll delay fit
/// into the timeout, and one more. A link whose clock stands still thus
/// times out all the same.
pub open spec fn max_polls(t: Timing) -> nat {
    t.timeout_millis as nat / delay_of(t) + 1
}

/// The time slept between two reads of one wait.
pub fn poll_delay(t: Timing) -> (r: u64)
    ensures
        r == delay_of(t),
{
    if t.poll_delay_millis == 0 {
        1
    } else {
        t.poll_delay_millis
    }
}

/// The reads one wait makes after its first.
pub fn poll_budget(t: Timing) -> (r: u64)
    ensures
        r + 1 == max_polls(t),
{
    t.timeout_millis / poll_delay(t)
}

/// The clock reading at which a wait of `timeout` milliseconds that starts
/// at `now` is over, or the largest reading where that lies beyond it.
pub fn deadline_of(now: u64, timeout: u64) -> (r: u64)
    ensures
        r == if now > u64::MAX - timeout {
            u64::MAX as int
        } else {
            now + timeout
        },
{
    if now > u64::MAX - timeout {
        u64::MAX
    } else {
        now + timeout
    }
}

/// Decides on one read of a wait that may read `polls_left` more times:
/// the reply the read decides, a timeout where it decides nothing and no
/// read is left, or `None` to sleep and read again.
pub fn poll_round(read: ReadOutcome, polls_left: u64, handshake: bool) -> (r: Option<Reply>)
    ensures
        r == match poll_meaning(read, handshake) {
            Some(x) => Some(x),
            None => if polls_left == 0 {
                Some(Reply::TimedOut)
            } else {
                None
            },
        },
{
    match poll_step(read, handshake) {
        Some(x) => Some(x),
        None => if polls_left == 0 {
            Some(Reply::TimedOut)
        } else {
            None
        },
    }
}

/// The milliseconds from `start` to `end` on a clock that does not go back;
/// zero where it went back after all.
pub fn elapsed_millis(start: u64, end: u64) -> (r: u64)
    ensures
        r == if end >= start {
            end - start
        } else {
            0
        },
{
    if end >= start {
        end - start
    } else {
        0
    }
}

/// What a sender is: its packetizer, the packet in flight, how many of its
/// attempts have failed, its phase and its limits.
pub struct SenderModel {
    pub packets: AdapterModel,
    pub current: Option<PacketModel>,
    pub attempts: nat,
    pub phase: Phase,
    pub timing: Timing,
}

impl SenderModel {
    pub open spec fn wf(self) -> bool {
        &&& self.packets.wf()
        &&& self.phase == Phase::AwaitingHandshake ==> !self.packets.reached_eof
        &&& (self.phase == Phase::Writing || self.phase == Phase::AwaitingAck) ==> {
            &&& self.attempts < self.timing.max_attempts
            &&& self.current is Some
            &&& (self.current == Some(PacketModel::Terminal)) == self.packets.reached_eof
        }
        &&& self.current matches Some(PacketModel::Data { payload, .. }) ==> valid_payload(
            payload,
        )
    }

    /// Whether the transfer is over.
    pub open spec fn is_finished(self) -> bool {
        self.phase == Phase::Succeeded || self.phase is Failed
    }

    /// Takes the next packet from the packetizer and starts writing it; where
    /// no attempt at all is allowed, gives the transfer up instead.
    pub open spec fn advance(self) -> SenderModel {
        if self.timing.max_attempts == 0 {
            self.fail(Failure::RetriesExhausted)
        } else {
            let (packets, current) = pull_step(self.packets);
            SenderModel { packets, current, attempts: 0, phase: Phase::Writing, ..self }
        }
    }

    /// Gives the transfer up.
    pub open spec fn fail(self, why: Failure) -> SenderModel {
        SenderModel { phase: Phase::Failed(why), ..self }
    }

    /// The packets not yet taken from the packetizer, the terminal one
    /// included, bounded from above.
    pub open spec fn packets_left(self) -> nat {
        if self.packets.reached_eof {
            0
        } else {
            (self.packets.source.len() - self.packets.position + 1) as nat
        }
    }

    /// An upper bound on the number of steps left before the transfer is over.
    pub open spec fn budget(self) -> nat {
        let per_packet = 2 * self.timing.max_attempts + 2;
        let tries_left = 2 * (self.timing.max_attempts - self.attempts);
        match self.phase {
            Phase::AwaitingHandshake => (per_packet * self.packets_left() + per_packet) as nat,
            Phase::Writing => (per_packet * self.packets_left() + tries_left + 1) as nat,
            Phase::AwaitingAck => (per_packet * self.packets_left() + tries_left) as nat,
            _ => 0,
        }
    }
}

/// The limits a sender works within unless told otherwise.
pub open spec fn default_timing() -> Timing {
    Timing {
        max_attempts: MAX_ATTEMPTS,
        timeout_millis: TIMEOUT_MILLIS,
        poll_delay_millis: POLL_DELAY_MILLIS,
    }
}

/// A sender that waits for the receiver to open a transfer of `source`.
pub open spec fn initial(source: Seq<u8>, timing: Timing) -> SenderModel {
    SenderModel {
        packets: fresh(source),
        current: None,
        attempts: 0,
        phase: Phase::AwaitingHandshake,
        timing,
    }
}

/// The sender after the response `reply`. Before the transfer opens, a
/// negative acknowledgement opens it, a stray byte changes nothing, and an
/// acknowledgement or no response in time ends it. While waiting for a
/// packet's acknowledgement, anything but an acknowledgement costs an
/// attempt. A failed read ends the transfer either way.
pub open spec fn after_reply(m: SenderModel, reply: Reply) -> SenderModel {
    match reply {
        Reply::Failed => m.fail(Failure::Link),
        Reply::Byte(b) if m.phase == Phase::AwaitingHandshake && meaning(b) == Some(false) => {
            m.advance()
        },
        Reply::Byte(b) if m.phase == Phase::AwaitingHandshake && meaning(b) is None => m,
        _ if m.phase == Phase::AwaitingHandshake => m.fail(Failure::Handshake),
        Reply::Byte(b) if meaning(b) == Some(true) => if m.current == Some(PacketModel::Terminal) {
            SenderModel { phase: Phase::Succeeded, ..m }
        } else {
            m.advance()
        },
        _ => if m.attempts + 1 >= m.timing.max_attempts {
            m.fail(Failure::RetriesExhausted)
        } else {
            SenderModel { attempts: m.attempts + 1, phase: Phase::Writing, ..m }
        },
    }
}

/// The sender after writing the packet in flight: a failed write ends the
/// transfer.
pub open spec fn after_write(m: SenderModel, ok: bool) -> SenderModel {
    if ok {
        SenderModel { phase: Phase::AwaitingAck, ..m }
    } else {
        m.fail(Failure::Link)
    }
}

/// Whether the sender waits for a response.
pub open spec fn awaiting(m: SenderModel) -> bool {
    m.phase == Phase::AwaitingHandshake || m.phase == Phase::AwaitingAck
}

/// The sender after one call on its link: a write counts by its outcome, a
/// read by what it decides (see `poll_meaning`), a wait that ran out of
/// time as no response in time.
pub open spec fn after_call(m: SenderModel, c: LinkCall) -> SenderModel {
    match c {
        LinkCall::Wrote(_, ok) => after_write(m, ok),
        LinkCall::Read(o) => match poll_meaning(o, m.phase == Phase::AwaitingHandshake) {
            Some(reply) => after_reply(m, reply),
            None => m,
        },
        LinkCall::WaitTimedOut => after_reply(m, Reply::TimedOut),
    }
}

/// Whether a sender in state `m` may make the call `c`: a write only of the
/// exact frame of the packet in flight, when it is to be written; a read or
/// a timeout only while a response is awaited. No call fits a transfer
/// that is over.
pub open spec fn fits(m: SenderModel, c: LinkCall) -> bool {
    match c {
        LinkCall::Wrote(bytes, _) => m.phase == Phase::Writing && bytes == wire(
            m.current.unwrap(),
        ),
        _ => awaiting(m),
    }
}

/// The sender after the calls of `t`, in order.
pub open spec fn run(m: SenderModel, t: Seq<LinkCall>) -> SenderModel
    decreases t.len(),
{
    if t.len() == 0 {
        m
    } else {
        after_call(run(m, t.drop_last()), t.last())
    }
}

/// Whether each call of `t` fits the state the sender, started from `m`,
/// was in when it made it.
pub open spec fn sound(m: SenderModel, t: Seq<LinkCall>) -> bool {
    forall|i: int| 0 <= i < t.len() ==> fits(#[trigger] run(m, t.take(i)), t[i])
}

/// The calls of one wait: reads that decide nothing, then a read that
/// decides the reply `r`, or a timeout; no more than `max_polls` reads.
pub open spec fn wait_calls(calls: Seq<LinkCall>, handshake: bool, t: Timing, r: Reply) -> bool {
    &&& 1 <= calls.len() <= max_polls(t) + 1
    &&& forall|i: int|
        0 <= i < calls.len() - 1 ==> (#[trigger] calls[i] matches LinkCall::Read(o) && poll_meaning(
            o,
            handshake,
        ) is None)
    &&& match calls.last() {
        LinkCall::Read(o) => calls.len() <= max_polls(t) && poll_meaning(o, handshake) == Some(r),
        LinkCall::WaitTimedOut => r == Reply::TimedOut,
        LinkCall::Wrote(_, _) => false,
    }
}

/// Whether `later` is `earlier` with calls added at its end.
pub open spec fn extends(earlier: Seq<LinkCall>, later: Seq<LinkCall>) -> bool {
    earlier.len() <= later.len() && later.take(earlier.len() as int) == earlier
}

/// The XMODEM sender (checksum mode, 128-byte blocks): the decisions of a
/// transfer, apart from the link that carries it.
pub struct XModem {
    packets: XModemFileAdapter,
    current: Option<Packet>,
    attempts: usize,
    phase: Phase,
    timing: Timing,
    log: Ghost<Seq<LinkCall>>,
}

impl View for XModem {
    type V = SenderModel;

    closed spec fn view(&self) -> SenderModel {
        SenderModel {
            packets: self.packets@,
            current: match self.current {
                Some(p) => Some(p@),
                None => None,
            },
            attempts: self.attempts as nat,
            phase: self.phase,
            timing: self.timing,
        }
    }
}

impl XModem {
    /// The calls this sender has made on links, in order.
    pub closed spec fn log(&self) -> Seq<LinkCall> {
        self.log@
    }

    /// A sender of `source` that waits for the receiver's first negative
    /// acknowledgement, with the default limits.
    pub fn new(source: Vec<u8>) -> (r: XModem)
        ensures
            r@ == initial(source@, default_timing()),
            r@.wf(),
            r.log() == Seq::<LinkCall>::empty(),
    {
        XModem::with_settings(source, MAX_ATTEMPTS, TIMEOUT_MILLIS, POLL_DELAY_MILLIS)
    }

    /// A sender of `source` with the given limits: `max_attempts` writes of
    /// one packet, a `timeout_millis` wait for each response, and reads
    /// `poll_delay_millis` apart while waiting.
    pub fn with_settings(
        source: Vec<u8>,
        max_attempts: usize,
        timeout_millis: u64,
        poll_delay_millis: u64,
    ) -> (r: XModem)
        ensures
            r@ == initial(source@, Timing { max_attempts, timeout_millis, poll_delay_millis }),
            r@.wf(),
            r.log() == Seq::<LinkCall>::empty(),
    {
        XModem {
            packets: XModemFileAdapter::new(source),
            current: None,
            attempts: 0,
            phase: Phase::AwaitingHandshake,
            timing: Timing { max_attempts, timeout_millis, poll_delay_millis },
            log: Ghost(Seq::empty()),
        }
    }

    /// The sender's phase.
    pub fn phase(&self) -> (r: Phase)
        ensures
            r == self@.phase,
    {
        self.phase
    }

    /// The sender's limits.
    pub fn timing(&self) -> (r: Timing)
        ensures
            r == self@.timing,
    {
        self.timing
    }

    /// What the link is to do next.
    pub fn action(&self) -> (r: Action)
        requires
            self@.wf(),
        ensures
            match self@.phase {
                Phase::AwaitingHandshake | Phase::AwaitingAck => r is AwaitResponse,
                Phase::Writing => r matches Action::Write(bytes) && bytes@ == wire(
                    self@.current.unwrap(),
                ),
                Phase::Succeeded => r == Action::Finish(true),
                Phase::Failed(_) => r == Action::Finish(false),
            },
    {
        match self.phase {
            Phase::AwaitingHandshake | Phase::AwaitingAck => Action::AwaitResponse,
            Phase::Writing => match &self.current {
                Some(p) => Action::Write(p.data()),
                None => Action::Finish(false),
            },
            Phase::Succeeded => Action::Finish(true),
            Phase::Failed(_) => Action::Finish(false),
        }
    }

    fn advance(&mut self)
        requires
            old(self)@.wf(),
            !old(self)@.packets.reached_eof,
        ensures
            final(self)@ == old(self)@.advance(),
            final(self)@.wf(),
            final(self).log() == old(self).log(),
    {
        if self.timing.max_attempts == 0 {
            self.phase = Phase::Failed(Failure::RetriesExhausted);
            return ;
        }
        self.current = self.packets.next();
        self.attempts = 0;
        self.phase = Phase::Writing;
    }

    /// Takes the response that the link waited for.
    pub fn on_reply(&mut self, reply: Reply)
        requires
            old(self)@.wf(),
            old(self)@.phase == Phase::AwaitingHandshake || old(self)@.phase == Phase::AwaitingAck,
        ensures
            final(self)@ == after_reply(old(self)@, reply),
            final(self)@.wf(),
            final(self).log() == old(self).log(),
    {
        let handshake = self.phase == Phase::AwaitingHandshake;
        let response = match reply {
            Reply::Failed => {
                self.phase = Phase::Failed(Failure::Link);
                return ;
            },
            Reply::TimedOut => None,
            Reply::Byte(b) => classify(b),
        };
        if handshake {
            match response {
                Some(false) => self.advance(),
                Some(true) => self.phase = Phase::Failed(Failure::Handshake),
                None => match reply {
                    Reply::Byte(_) => {},
                    _ => self.phase = Phase::Failed(Failure::Handshake),
                },
            }
        } else if response == Some(true) {
            let last = match &self.current {
                Some(p) => p.is_terminal(),
                None => false,
            };
            if last {
                self.phase = Phase::Succeeded;
            } else {
                self.advance();
            }
        } else if self.attempts + 1 >= self.timing.max_attempts {
            self.phase = Phase::Failed(Failure::RetriesExhausted);
        } else {
            self.attempts = self.attempts + 1;
            self.phase = Phase::Writing;
        }
    }

    /// Takes the outcome of writing the packet in flight.
    pub fn on_written(&mut self, ok: bool)
        requires
            old(self)@.wf(),
            old(self)@.phase == Phase::Writing,
        ensures
            final(self)@ == after_write(old(self)@, ok),
            final(self)@.wf(),
            final(self).log() == old(self).log(),
    {
        if ok {
            self.phase = Phase::AwaitingAck;
        } else {
            self.phase = Phase::Failed(Failure::Link);
        }
    }
}

proof fn lemma_run_append(m: SenderModel, a: Seq<LinkCall>, b: Seq<LinkCall>)
    ensures
        run(m, a + b) == run(run(m, a), b),
        sound(m, a) && sound(run(m, a), b) ==> sound(m, a + b),
    decreases b.len(),
{
    if b.len() == 0 {
        assert(a + b =~= a);
    } else {
        lemma_run_append(m, a, b.drop_last());
        assert((a + b).drop_last() =~= a + b.drop_last());
        assert((a + b).last() == b.last());
    }
    if sound(m, a) && sound(run(m, a), b) {
        assert forall|i: int| 0 <= i < (a + b).len() implies fits(
            #[trigger] run(m, (a + b).take(i)),
            (a + b)[i],
        ) by {
            if i < a.len() {
                assert((a + b).take(i) =~= a.take(i));
            } else {
                let j = i - a.len();
                assert((a + b).take(i) =~= a + b.take(j));
                lemma_run_append(m, a, b.take(j));
                assert(fits(run(run(m, a), b.take(j)), b[j]));
            }
        }
    }
}

proof fn lemma_wait_prefix(
    m: SenderModel,
    calls: Seq<LinkCall>,
    handshake: bool,
    t: Timing,
    r: Reply,
    k: int,
)
    requires
        wait_calls(calls, handshake, t, r),
        handshake == (m.phase == Phase::AwaitingHandshake),
        0 <= k < calls.len(),
    ensures
        run(m, calls.take(k)) == m,
    decreases k,
{
    if k > 0 {
        lemma_wait_prefix(m, calls, handshake, t, r, k - 1);
        assert(calls.take(k).drop_last() =~= calls.take(k - 1));
        assert(calls[k - 1] matches LinkCall::Read(_));
    } else {
        assert(calls.take(0) =~= Seq::<LinkCall>::empty());
    }
}

/// The calls of one wait take a sender that awaits a response exactly as
/// the reply of the wait does; before the transfer opens, that reply is
/// never a stray byte.
pub proof fn lemma_wait_run(m: SenderModel, calls: Seq<LinkCall>, r: Reply)
    requires
        awaiting(m),
        wait_calls(calls, m.phase == Phase::AwaitingHandshake, m.timing, r),
    ensures
        run(m, calls) == after_reply(m, r),
        sound(m, calls),
        m.phase == Phase::AwaitingHandshake ==> !is_stray(r),
{
    let handshake = m.phase == Phase::AwaitingHandshake;
    assert forall|i: int| 0 <= i < calls.len() implies fits(
        #[trigger] run(m, calls.take(i)),
        calls[i],
    ) by {
        lemma_wait_prefix(m, calls, handshake, m.timing, r, i);
        if i < calls.len() - 1 {
            assert(calls[i] matches LinkCall::Read(_));
        } else {
            assert(calls[i] == calls.last());
        }
    }
    lemma_wait_prefix(m, calls, handshake, m.timing, r, calls.len() - 1);
    assert(calls.drop_last() =~= calls.take(calls.len() - 1));
}

/// A wait in which no byte comes in, and no read fails, ends in a timeout,
/// after no more than `max_polls` reads.
pub proof fn lemma_silent_wait_times_out(
    calls: Seq<LinkCall>,
    handshake: bool,
    t: Timing,
    r: Reply,
)
    requires
        wait_calls(calls, handshake, t, r),
        forall|i: int|
            0 <= i < calls.len() ==> (#[trigger] calls[i] is Read ==> calls[i] == LinkCall::Read(
                ReadOutcome::Nothing,
            )),
    ensures
        r == Reply::TimedOut,
        calls.len() <= max_polls(t) + 1,
{
    assert(calls.last() == calls[calls.len() - 1]);
}

/// A sender makes no call on its link after the one that ends its transfer.
pub proof fn lemma_nothing_after_the_end(m: SenderModel, t: Seq<LinkCall>, i: int)
    requires
        sound(m, t),
        0 <= i <= t.len(),
        run(m, t.take(i)).is_finished(),
    ensures
        i == t.len(),
{
    if i < t.len() {
        assert(fits(run(m, t.take(i)), t[i]));
    }
}

/// A failed write is the last call a sender makes on its link: it waits for
/// no response and writes nothing more.
pub proof fn lemma_nothing_after_write_failure(m: SenderModel, t: Seq<LinkCall>, j: int)
    requires
        sound(m, t),
        0 <= j < t.len(),
        t[j] matches LinkCall::Wrote(_, false),
    ensures
        j == t.len() - 1,
{
    assert(t.take(j + 1).drop_last() =~= t.take(j));
    assert(run(m, t.take(j + 1)).is_finished());
    if j + 1 < t.len() {
        lemma_nothing_after_the_end(m, t, j + 1);
    }
}

/// Every response and every write outcome brings an unfinished transfer
/// closer to its end, but for a stray byte before the transfer opens, which
/// changes nothing.
pub proof fn lemma_steps_shrink_budget(m: SenderModel, reply: Reply, ok: bool)
    requires
        m.wf(),
        !(m.phase == Phase::AwaitingHandshake && is_stray(reply)),
    ensures
        (m.phase == Phase::AwaitingHandshake || m.phase == Phase::AwaitingAck) ==> after_reply(
            m,
            reply,
        ).budget() < m.budget(),
        m.phase == Phase::Writing ==> after_write(m, ok).budget() < m.budget(),
{
    let p = 2 * m.timing.max_attempts + 2;
    let l = m.packets_left();
    if m.phase == Phase::AwaitingHandshake || m.phase == Phase::AwaitingAck {
        assert(m.budget() >= p * l + 2);
    }
    if m.timing.max_attempts == 0 {
        assert(m.advance().budget() == 0);
    } else if !m.packets.reached_eof {
        let k = m.advance().packets_left();
        assert(k < l);
        assert(p * k + p - 1 < p * l) by (nonlinear_arith)
            requires
                k + 1 <= l,
                p >= 2,
        ;
        assert(m.advance().budget() == p * k + p - 1);
    }
    match reply {
        Reply::Byte(b) => {
            if meaning(b) == Some(true) && m.phase == Phase::AwaitingAck && m.current != Some(
                PacketModel::Terminal,
            ) {
                assert(!m.packets.reached_eof);
            }
        },
        _ => {},
    }
}

/// The sender after `k` rounds in which the packet in flight is written and
/// answered with `reply`.
pub open spec fn rounds(m: SenderModel, reply: Reply, k: nat) -> SenderModel
    decreases k,
{
    if k == 0 {
        m
    } else {
        rounds(after_reply(after_write(m, true), reply), reply, (k - 1) as nat)
    }
}

/// Before the transfer opens, a negative acknowledgement is the only response
/// that leads to a write; a stray byte leaves the sender waiting as it was;
/// an acknowledgement, no response in time, or a failed read ends the
/// transfer with nothing written.
pub proof fn lemma_handshake(source: Seq<u8>, timing: Timing, reply: Reply)
    ensures
        reply == Reply::Byte(NEGATIVE_ACKNOWLEDGE) && 1 <= timing.max_attempts ==> after_reply(
            initial(source, timing),
            reply,
        ).phase == Phase::Writing,
        is_stray(reply) ==> after_reply(initial(source, timing), reply) == initial(source, timing),
        reply != Reply::Byte(NEGATIVE_ACKNOWLEDGE) && !is_stray(reply) ==> after_reply(
            initial(source, timing),
            reply,
        ).phase is Failed,
{
}

/// A write that fails ends the transfer at once: the sender asks for no
/// response and writes nothing more.
pub proof fn lemma_write_failure(m: SenderModel)
    requires
        m.wf(),
        m.phase == Phase::Writing,
    ensures
        after_write(m, false).phase == Phase::Failed(Failure::Link),
        after_write(m, false).is_finished(),
{
}

/// A packet that is written and answered with anything but an
/// acknowledgement (a negative one, another byte, or no response in time)
/// is written again as long as fewer attempts than allowed have failed; on
/// the last allowed failure the transfer is given up. So an acknowledgement
/// on the last attempt still carries the transfer on.
pub proof fn lemma_retry_budget(m: SenderModel, reply: Reply, k: nat)
    requires
        m.wf(),
        m.phase == Phase::Writing,
        m.attempts == 0,
        k <= m.timing.max_attempts,
        reply != Reply::Byte(ACKNOWLEDGE),
        reply != Reply::Failed,
    ensures
        k < m.timing.max_attempts ==> rounds(m, reply, k) == (SenderModel { attempts: k, ..m }),
        k == m.timing.max_attempts ==> rounds(m, reply, k).phase == Phase::Failed(
            Failure::RetriesExhausted,
        ),
        k + 1 == m.timing.max_attempts ==> !(after_reply(
            after_write(rounds(m, reply, k), true),
            Reply::Byte(ACKNOWLEDGE),
        ).phase is Failed),
{
    lemma_rounds_from(m, reply, k);
}

proof fn lemma_rounds_from(m: SenderModel, reply: Reply, k: nat)
    requires
        m.wf(),
        m.phase == Phase::Writing,
        m.attempts + k <= m.timing.max_attempts,
        reply != Reply::Byte(ACKNOWLEDGE),
        reply != Reply::Failed,
    ensures
        m.attempts + k < m.timing.max_attempts ==> rounds(m, reply, k) == (SenderModel {
            attempts: m.attempts + k,
            ..m
        }),
        m.attempts + k == m.timing.max_attempts ==> rounds(m, reply, k).phase == Phase::Failed(
            Failure::RetriesExhausted,
        ),
    decreases k,
{
    if k > 0 {
        let next = after_reply(after_write(m, true), reply);
        if m.attempts + 1 < m.timing.max_attempts {
            assert(next == SenderModel { attempts: m.attempts + 1, ..m });
            lemma_rounds_from(next, reply, (k - 1) as nat);
        } else {
            assert(k == 1);
            assert(rounds(next, reply, 0) == next);
        }
    }
}

/// The sender after up to `k` rounds in which the packet in flight is
/// written and acknowledged; rounds stop once the transfer is over.
pub open spec fn acknowledged_rounds(m: SenderModel, k: nat) -> SenderModel
    decreases k,
{
    if k == 0 || m.is_finished() {
        m
    } else {
        acknowledged_rounds(
            after_reply(after_write(m, true), Reply::Byte(ACKNOWLEDGE)),
            (k - 1) as nat,
        )
    }
}

/// Over a link that opens the transfer with a negative acknowledgement, then
/// takes every write and acknowledges every packet, the transfer of any
/// source of `L` bytes succeeds within `L + 1` packets.
pub proof fn lemma_cooperative_link(source: Seq<u8>, timing: Timing)
    requires
        1 <= timing.max_attempts,
    ensures
        acknowledged_rounds(
            after_reply(initial(source, timing), Reply::Byte(NEGATIVE_ACKNOWLEDGE)),
            source.len() + 1,
        ).phase == Phase::Succeeded,
{
    let m = after_reply(initial(source, timing), Reply::Byte(NEGATIVE_ACKNOWLEDGE));
    assert(m.packets_left() <= source.len());
    lemma_acknowledged_from(m, source.len() + 1);
}

proof fn lemma_acknowledged_from(m: SenderModel, k: nat)
    requires
        m.wf(),
        m.phase == Phase::Writing,
        k >= m.packets_left() + 1,
    ensures
        acknowledged_rounds(m, k).phase == Phase::Succeeded,
    decreases k,
{
    let next = after_reply(after_write(m, true), Reply::Byte(ACKNOWLEDGE));
    if m.current == Some(PacketModel::Terminal) {
        assert(next.phase == Phase::Succeeded);
        assert(acknowledged_rounds(next, (k - 1) as nat) == next);
    } else {
        assert(next == m.advance());
        assert(next.packets_left() < m.packets_left());
        lemma_acknowledged_from(next, (k - 1) as nat);
    }
}

/// Shows how a transfer is getting on.
pub struct ProgressOutput {
    pub heading: String,
}

impl ProgressOutput {
    /// A report whose first line begins with `start`.
    pub fn new(start: &str) -> (r: ProgressOutput)
        ensures
            r.heading@ == start@,
    {
        ProgressOutput { heading: start.to_owned() }
    }

    /// The text that opens the report.
    pub fn heading(&self) -> (r: &str)
        ensures
            r@ == self.heading@,
    {
        self.heading.as_str()
    }

    /// The text shown for each attempt to write a packet.
    pub fn update(&self) -> (r: &'static str)
        ensures
            r@ == "."@,
    {
        "."
    }

    /// The text that closes the report of a transfer that succeeded.
    pub fn succeed(self) -> (r: &'static str)
        ensures
            r@ == " Done.\n"@,
    {
        " Done.\n"
    }

    /// The text that closes the report of a transfer that gave up on a packet.
    pub fn fail(self) -> (r: &'static str)
        ensures
            r@ == " Failed.\n"@,
    {
        " Failed.\n"
    }
}

/// The link a transfer runs over, with the clock that times it and the place
/// where its progress shows. Nothing is assumed of what these return: a
/// sender decides correctly whatever they do.
pub trait Link {
    /// Writes all of `bytes`; `false` where the link reported an error.
    fn write_all(&mut self, bytes: &[u8]) -> bool;

    /// Reads one byte, if one has come in.
    fn read_byte(&mut self) -> ReadOutcome;

    /// Sleeps for `millis` milliseconds.
    fn sleep_millis(&mut self, millis: u64);

    /// Milliseconds on a clock that does not go back.
    fn now_millis(&mut self) -> u64;

    /// Shows a piece of progress text.
    fn show(&mut self, text: &str);
}

impl XModem {
    /// Waits for one response on `link`: reads, and sleeps the poll delay
    /// between reads, until a read decides (see `poll_meaning`), the
    /// timeout, counted once from the start of the wait, has passed, or
    /// `max_polls` reads have decided nothing. Before the transfer opens,
    /// stray bytes are passed over.
    pub fn wait_for_response<L: Link>(&mut self, link: &mut L) -> (r: Reply)
        ensures
            final(self)@ == old(self)@,
            extends(old(self).log(), final(self).log()),
            wait_calls(
                final(self).log().skip(old(self).log().len() as int),
                old(self)@.phase == Phase::AwaitingHandshake,
                old(self)@.timing,
                r,
            ),
    {
        let ghost l0 = self.log@;
        let ghost mut calls: Seq<LinkCall> = Seq::empty();
        let handshake = self.phase == Phase::AwaitingHandshake;
        let delay = poll_delay(self.timing);
        let deadline = deadline_of(link.now_millis(), self.timing.timeout_millis);
        let mut polls_left: u64 = poll_budget(self.timing);
        loop
            invariant
                l0 == old(self).log(),
                self@ == old(self)@,
                handshake == (old(self)@.phase == Phase::AwaitingHandshake),
                self.log@ == l0 + calls,
                calls.len() + polls_left + 1 == max_polls(self@.timing),
                forall|i: int|
                    0 <= i < calls.len() ==> (#[trigger] calls[i] matches LinkCall::Read(o)
                        && poll_meaning(o, handshake) is None),
            decreases polls_left,
        {
            if link.now_millis() >= deadline {
                proof {
                    calls = calls.push(LinkCall::WaitTimedOut);
                }
                self.log = Ghost(self.log@.push(LinkCall::WaitTimedOut));
                assert(self.log@ == l0 + calls);
                assert(self.log@.take(l0.len() as int) =~= l0);
                assert(self.log@.skip(l0.len() as int) =~= calls);
                return Reply::TimedOut;
            }
            let read = link.read_byte();
            proof {
                calls = calls.push(LinkCall::Read(read));
            }
            self.log = Ghost(self.log@.push(LinkCall::Read(read)));
            assert(self.log@ == l0 + calls);
            match poll_round(read, polls_left, handshake) {
                Some(Reply::TimedOut) => {
                    proof {
                        calls = calls.push(LinkCall::WaitTimedOut);
                    }
                    self.log = Ghost(self.log@.push(LinkCall::WaitTimedOut));
                    assert(self.log@ == l0 + calls);
                    assert(self.log@.take(l0.len() as int) =~= l0);
                    assert(self.log@.skip(l0.len() as int) =~= calls);
                    return Reply::TimedOut;
                },
                Some(reply) => {
                    assert(self.log@.take(l0.len() as int) =~= l0);
                    assert(self.log@.skip(l0.len() as int) =~= calls);
                    return reply;
                },
                None => {},
            }
            link.sleep_millis(delay);
            polls_left = polls_left - 1;
        }
    }

    /// Runs the transfer over `link` until it is over. On success, the
    /// milliseconds from the receiver's opening negative acknowledgement to
    /// the acknowledgement of the terminal packet; on failure, `None`. Each
    /// call it makes on the link fits the state the sender is in (so every
    /// write is the frame of the packet in flight), and the sender ends where
    /// those calls lead it.
    pub fn send<L: Link>(&mut self, link: &mut L) -> (r: Option<u64>)
        requires
            old(self)@.wf(),
        ensures
            final(self)@.wf(),
            final(self)@.is_finished(),
            r is Some <==> final(self)@.phase == Phase::Succeeded,
            extends(old(self).log(), final(self).log()),
            final(self)@ == run(
                old(self)@,
                final(self).log().skip(old(self).log().len() as int),
            ),
            sound(old(self)@, final(self).log().skip(old(self).log().len() as int)),
    {
        let ghost m0 = self@;
        let ghost l0 = self.log();
        assert(self.log().skip(l0.len() as int) =~= Seq::<LinkCall>::empty());
        assert(self.log().take(l0.len() as int) =~= l0);
        let progress = ProgressOutput::new("Transferring file");
        link.show(progress.heading());
        let mut start: u64 = 0;
        loop
            invariant
                l0 == old(self).log(),
                m0 == old(self)@,
                self@.wf(),
                extends(l0, self.log()),
                self@ == run(m0, self.log().skip(l0.len() as int)),
                sound(m0, self.log().skip(l0.len() as int)),
            decreases self@.budget(),
        {
            let ghost before = self.log();
            let ghost mb = self@;
            match self.action() {
                Action::AwaitResponse => {
                    let opening = self.phase == Phase::AwaitingHandshake;
                    let reply = self.wait_for_response(link);
                    proof {
                        let w = self.log().skip(before.len() as int);
                        lemma_wait_run(mb, w, reply);
                        lemma_steps_shrink_budget(mb, reply, true);
                        assert(self.log() =~= before + w);
                        assert(self.log().skip(l0.len() as int) =~= before.skip(l0.len() as int)
                            + w);
                        assert(self.log().take(l0.len() as int) =~= before.take(
                            l0.len() as int,
                        ));
                        lemma_run_append(m0, before.skip(l0.len() as int), w);
                    }
                    self.on_reply(reply);
                    if opening && self.phase == Phase::Writing {
                        start = link.now_millis();
                    }
                },
                Action::Write(bytes) => {
                    link.show(progress.update());
                    let ok = link.write_all(bytes.as_slice());
                    let ghost c = LinkCall::Wrote(bytes@, ok);
                    self.log = Ghost(self.log@.push(c));
                    proof {
                        lemma_steps_shrink_budget(mb, Reply::Failed, ok);
                        let w = seq![c];
                        assert(w.take(0) =~= Seq::<LinkCall>::empty());
                        assert(w.drop_last() =~= Seq::<LinkCall>::empty());
                        assert(sound(mb, w));
                        assert(run(mb, Seq::<LinkCall>::empty()) == mb);
                        assert(run(mb, w) == after_write(mb, ok));
                        assert(self.log().skip(l0.len() as int) =~= before.skip(l0.len() as int)
                            + w);
                        assert(self.log().take(l0.len() as int) =~= before.take(
                            l0.len() as int,
                        ));
                        lemma_run_append(m0, before.skip(l0.len() as int), w);
                    }
                    self.on_written(ok);
                },
                Action::Finish(done) => {
                    if done {
                        link.show(progress.succeed());
                        let end = link.now_millis();
                        return Some(elapsed_millis(start, end));
                    }
                    if self.phase == Phase::Failed(Failure::RetriesExhausted) {
                        link.show(progress.fail());
                    }
                    return None;
                },
            }
        }
    }
}

} // verus!
