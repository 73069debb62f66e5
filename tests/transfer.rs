use xmodem_term::xmodem::{
    classify, deadline_of, elapsed_millis, poll_budget, poll_delay, poll_round, poll_step,
    Action, Failure, Link, Phase, ProgressOutput, ReadOutcome, Reply, Timing, XModem,
    ACKNOWLEDGE, NEGATIVE_ACKNOWLEDGE,
};

const ACK: ReadOutcome = ReadOutcome::Byte(ACKNOWLEDGE);
const NAK: ReadOutcome = ReadOutcome::Byte(NEGATIVE_ACKNOWLEDGE);
const STRAY: ReadOutcome = ReadOutcome::Byte(0x43);

/// A link that reads from a script, then `rest` for good. Each read takes a
/// millisecond on its clock, and sleeping moves the clock on.
struct ScriptedLink {
    script: Vec<ReadOutcome>,
    rest: ReadOutcome,
    fail_write_number: Option<usize>,
    writes: Vec<Vec<u8>>,
    write_calls: usize,
    reads: usize,
    clock: u64,
    shown: String,
}

impl ScriptedLink {
    fn new(script: Vec<ReadOutcome>, rest: ReadOutcome) -> Self {
        ScriptedLink {
            script,
            rest,
            fail_write_number: None,
            writes: Vec::new(),
            write_calls: 0,
            reads: 0,
            clock: 1000,
            shown: String::new(),
        }
    }
}

impl Link for ScriptedLink {
    fn write_all(&mut self, bytes: &[u8]) -> bool {
        self.write_calls += 1;
        if self.fail_write_number == Some(self.write_calls) {
            return false;
        }
        self.writes.push(bytes.to_vec());
        true
    }

    fn read_byte(&mut self) -> ReadOutcome {
        let r = self.script.get(self.reads).copied().unwrap_or(self.rest);
        self.reads += 1;
        self.clock += 1;
        r
    }

    fn sleep_millis(&mut self, millis: u64) {
        self.clock += millis;
    }

    fn now_millis(&mut self) -> u64 {
        self.clock
    }

    fn show(&mut self, text: &str) {
        self.shown.push_str(text);
    }
}

fn source(len: usize) -> Vec<u8> {
    (0..len).map(|i| (i % 251) as u8).collect()
}

/// No byte for as many reads as one wait makes with the default limits.
fn silence() -> Vec<ReadOutcome> {
    vec![ReadOutcome::Nothing; 20]
}

#[test]
fn cooperative_link_succeeds() {
    let mut link = ScriptedLink::new(vec![NAK], ACK);
    let elapsed = XModem::new(source(300)).send(&mut link);
    assert!(elapsed.is_some());
    assert!(elapsed.unwrap() > 0);
    assert_eq!(link.writes.len(), 4);
    assert_eq!(link.writes.iter().map(|w| w.len()).collect::<Vec<_>>(), vec![132, 132, 48, 1]);
    assert_eq!(link.writes.iter().map(|w| w[0]).collect::<Vec<_>>(), vec![1, 1, 1, 4]);
    assert_eq!(link.writes.iter().take(3).map(|w| w[1]).collect::<Vec<_>>(), vec![1, 2, 3]);
    assert_eq!(link.shown, "Transferring file.... Done.\n");
}

#[test]
fn empty_source_sends_only_the_terminal_packet() {
    let mut link = ScriptedLink::new(vec![NAK], ACK);
    assert!(XModem::new(Vec::new()).send(&mut link).is_some());
    assert_eq!(link.writes, vec![vec![4u8]]);
}

#[test]
fn no_handshake_fails_without_writing() {
    let mut link = ScriptedLink::new(Vec::new(), ReadOutcome::Nothing);
    assert_eq!(XModem::new(source(10)).send(&mut link), None);
    assert!(link.writes.is_empty());
    assert_eq!(link.write_calls, 0);
    // one wait of ten seconds, reading every half second
    assert_eq!(link.reads, 20);
}

#[test]
fn acknowledgement_instead_of_handshake_fails() {
    let mut link = ScriptedLink::new(vec![ACK], ACK);
    assert_eq!(XModem::new(source(10)).send(&mut link), None);
    assert_eq!(link.write_calls, 0);
}

#[test]
fn stray_bytes_before_the_handshake_are_passed_over() {
    let mut link = ScriptedLink::new(vec![STRAY, ReadOutcome::Nothing, STRAY, NAK], ACK);
    let mut sender = XModem::new(source(10));
    assert!(sender.send(&mut link).is_some());
    assert_eq!(sender.phase(), Phase::Succeeded);
    assert_eq!(link.writes.len(), 2);
}

#[test]
fn stray_bytes_do_not_extend_the_handshake_wait() {
    let mut link = ScriptedLink::new(Vec::new(), STRAY);
    let mut sender = XModem::new(source(10));
    assert_eq!(sender.send(&mut link), None);
    assert_eq!(sender.phase(), Phase::Failed(Failure::Handshake));
    assert_eq!(link.write_calls, 0);
    assert_eq!(link.reads, 20);
}

#[test]
fn nine_refusals_then_acknowledgement_succeeds() {
    let mut script = vec![NAK];
    script.extend(vec![NAK; 9]);
    let mut link = ScriptedLink::new(script, ACK);
    assert!(XModem::new(source(200)).send(&mut link).is_some());
    // ten writes of the first packet, one of the second, one terminal
    assert_eq!(link.writes.len(), 12);
    assert!(link.writes[..10].iter().all(|w| w[1] == 1));
    assert_eq!(link.writes[10][1], 2);
}

#[test]
fn ten_refusals_give_up() {
    let mut script = vec![NAK, ACK];
    script.extend(vec![NAK; 10]);
    let mut link = ScriptedLink::new(script, ACK);
    assert_eq!(XModem::new(source(300)).send(&mut link), None);
    // one write of the first packet, ten of the second, none after
    assert_eq!(link.writes.len(), 11);
    assert!(link.writes[1..].iter().all(|w| w[1] == 2));
    assert_eq!(link.reads, 12);
    assert!(link.shown.ends_with(" Failed.\n"));
}

#[test]
fn timeouts_and_stray_bytes_count_as_attempts() {
    let mut script = vec![NAK];
    script.extend(silence());
    script.push(STRAY);
    script.extend(silence());
    let mut link = ScriptedLink::new(script, ACK);
    assert!(XModem::new(source(5)).send(&mut link).is_some());
    // three writes that failed, the fourth acknowledged, then the terminal
    assert_eq!(link.writes.len(), 5);
}

#[test]
fn write_failure_ends_the_transfer() {
    let mut link = ScriptedLink::new(vec![NAK], ACK);
    link.fail_write_number = Some(2);
    assert_eq!(XModem::new(source(300)).send(&mut link), None);
    assert_eq!(link.write_calls, 2);
    // the handshake and the first packet's acknowledgement only
    assert_eq!(link.reads, 2);
}

#[test]
fn read_failure_ends_the_transfer() {
    let mut link = ScriptedLink::new(vec![NAK, ReadOutcome::Failed], ACK);
    assert_eq!(XModem::new(source(300)).send(&mut link), None);
    assert_eq!(link.write_calls, 1);
    assert_eq!(link.reads, 2);
}

#[test]
fn limits_can_be_chosen() {
    let sender = XModem::new(source(1));
    assert_eq!(
        sender.timing(),
        Timing { max_attempts: 10, timeout_millis: 10000, poll_delay_millis: 500 }
    );

    let mut link = ScriptedLink::new(vec![NAK], NAK);
    let mut sender = XModem::with_settings(source(1), 3, 10000, 500);
    assert_eq!(sender.send(&mut link), None);
    assert_eq!(sender.phase(), Phase::Failed(Failure::RetriesExhausted));
    assert_eq!(link.writes.len(), 3);

    let mut link = ScriptedLink::new(Vec::new(), ReadOutcome::Nothing);
    let mut sender = XModem::with_settings(source(1), 10, 1000, 100);
    assert_eq!(sender.send(&mut link), None);
    assert_eq!(link.reads, 10);
}

/// A link whose clock never moves and on which no byte ever comes in.
struct FrozenLink {
    reads: usize,
}
impl Link for FrozenLink {
    fn write_all(&mut self, _bytes: &[u8]) -> bool {
        true
    }
    fn read_byte(&mut self) -> ReadOutcome {
        self.reads += 1;
        ReadOutcome::Nothing
    }
    fn sleep_millis(&mut self, _millis: u64) {}
    fn now_millis(&mut self) -> u64 {
        0
    }
    fn show(&mut self, _text: &str) {}
}

#[test]
fn wait_ends_even_when_the_clock_stands_still() {
    let mut link = FrozenLink { reads: 0 };
    let mut sender = XModem::new(source(1));
    assert_eq!(sender.wait_for_response(&mut link), Reply::TimedOut);
    assert_eq!(link.reads, 21);
}

#[test]
fn state_machine_steps() {
    let mut sender = XModem::new(vec![9u8; 3]);
    assert_eq!(sender.phase(), Phase::AwaitingHandshake);
    assert!(matches!(sender.action(), Action::AwaitResponse));
    sender.on_reply(Reply::Byte(0x43));
    assert_eq!(sender.phase(), Phase::AwaitingHandshake);
    sender.on_reply(Reply::Byte(NEGATIVE_ACKNOWLEDGE));
    match sender.action() {
        Action::Write(bytes) => assert_eq!(bytes, vec![1, 1, 254, 9, 9, 9, 27]),
        other => panic!("unexpected {:?}", other),
    }
    sender.on_written(true);
    assert_eq!(sender.phase(), Phase::AwaitingAck);
    sender.on_reply(Reply::Byte(ACKNOWLEDGE));
    match sender.action() {
        Action::Write(bytes) => assert_eq!(bytes, vec![4]),
        other => panic!("unexpected {:?}", other),
    }
    sender.on_written(true);
    sender.on_reply(Reply::Byte(ACKNOWLEDGE));
    assert_eq!(sender.phase(), Phase::Succeeded);
    assert!(matches!(sender.action(), Action::Finish(true)));
}

#[test]
fn failure_causes() {
    let mut sender = XModem::new(vec![1u8]);
    sender.on_reply(Reply::TimedOut);
    assert_eq!(sender.phase(), Phase::Failed(Failure::Handshake));
    assert!(matches!(sender.action(), Action::Finish(false)));

    let mut sender = XModem::new(vec![1u8]);
    sender.on_reply(Reply::Byte(NEGATIVE_ACKNOWLEDGE));
    sender.on_written(false);
    assert_eq!(sender.phase(), Phase::Failed(Failure::Link));

    let mut sender = XModem::new(vec![1u8]);
    sender.on_reply(Reply::Byte(NEGATIVE_ACKNOWLEDGE));
    for _ in 0..10 {
        sender.on_written(true);
        sender.on_reply(Reply::Byte(NEGATIVE_ACKNOWLEDGE));
    }
    assert_eq!(sender.phase(), Phase::Failed(Failure::RetriesExhausted));
}

#[test]
fn responses_are_classified() {
    assert_eq!(classify(0x06), Some(true));
    assert_eq!(classify(0x15), Some(false));
    assert_eq!(classify(0x43), None);
    assert_eq!(classify(0x00), None);
}

#[test]
fn polls_are_decided() {
    assert_eq!(poll_step(ReadOutcome::Nothing, true), None);
    assert_eq!(poll_step(ReadOutcome::Nothing, false), None);
    assert_eq!(poll_step(STRAY, true), None);
    assert_eq!(poll_step(STRAY, false), Some(Reply::Byte(0x43)));
    assert_eq!(poll_step(NAK, true), Some(Reply::Byte(0x15)));
    assert_eq!(poll_step(ACK, false), Some(Reply::Byte(0x06)));
    assert_eq!(poll_step(ReadOutcome::Failed, true), Some(Reply::Failed));
}

#[test]
fn progress_texts() {
    let progress = ProgressOutput::new("Sending");
    assert_eq!(progress.heading(), "Sending");
    assert_eq!(progress.update(), ".");
    assert_eq!(ProgressOutput::new("x").succeed(), " Done.\n");
    assert_eq!(ProgressOutput::new("x").fail(), " Failed.\n");
}

#[test]
fn send_leaves_the_sender_finished() {
    let mut link = ScriptedLink::new(Vec::new(), ReadOutcome::Nothing);
    let mut sender = XModem::new(source(10));
    assert_eq!(sender.send(&mut link), None);
    assert_eq!(sender.phase(), Phase::Failed(Failure::Handshake));

    let mut link = ScriptedLink::new(vec![NAK], ACK);
    let mut sender = XModem::new(source(10));
    assert!(sender.send(&mut link).is_some());
    assert_eq!(sender.phase(), Phase::Succeeded);

    let mut link = ScriptedLink::new(vec![NAK], NAK);
    let mut sender = XModem::new(source(10));
    assert_eq!(sender.send(&mut link), None);
    assert_eq!(sender.phase(), Phase::Failed(Failure::RetriesExhausted));
    assert_eq!(link.writes.len(), 10);
}

#[test]
fn no_attempt_allowed_fails_without_writing() {
    let mut link = ScriptedLink::new(vec![NAK], ACK);
    let mut sender = XModem::with_settings(source(10), 0, 10000, 500);
    assert_eq!(sender.send(&mut link), None);
    assert_eq!(sender.phase(), Phase::Failed(Failure::RetriesExhausted));
    assert_eq!(link.write_calls, 0);
    assert_eq!(link.reads, 1);
}

#[test]
fn wait_limits_are_computed() {
    let t = Timing { max_attempts: 10, timeout_millis: 10000, poll_delay_millis: 500 };
    assert_eq!(poll_delay(t), 500);
    assert_eq!(poll_budget(t), 20);
    let t = Timing { max_attempts: 10, timeout_millis: 1250, poll_delay_millis: 0 };
    assert_eq!(poll_delay(t), 1);
    assert_eq!(poll_budget(t), 1250);
    let t = Timing { max_attempts: 10, timeout_millis: 999, poll_delay_millis: 500 };
    assert_eq!(poll_budget(t), 1);
}

#[test]
fn deadlines_saturate() {
    assert_eq!(deadline_of(1000, 10000), 11000);
    assert_eq!(deadline_of(u64::MAX - 5, 10), u64::MAX);
    assert_eq!(deadline_of(u64::MAX - 10, 10), u64::MAX);
    assert_eq!(deadline_of(0, 0), 0);
}

#[test]
fn poll_rounds_are_decided() {
    assert_eq!(poll_round(ReadOutcome::Nothing, 3, false), None);
    assert_eq!(poll_round(ReadOutcome::Nothing, 0, false), Some(Reply::TimedOut));
    assert_eq!(poll_round(STRAY, 0, true), Some(Reply::TimedOut));
    assert_eq!(poll_round(STRAY, 0, false), Some(Reply::Byte(0x43)));
    assert_eq!(poll_round(NAK, 0, true), Some(Reply::Byte(0x15)));
    assert_eq!(poll_round(ReadOutcome::Failed, 5, false), Some(Reply::Failed));
}

#[test]
fn elapsed_time_never_goes_negative() {
    assert_eq!(elapsed_millis(100, 350), 250);
    assert_eq!(elapsed_millis(350, 350), 0);
    assert_eq!(elapsed_millis(350, 100), 0);
}
