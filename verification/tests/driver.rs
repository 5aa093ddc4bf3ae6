use quic::client::generate_scid;
use quic::driver::{
    buffered_datagram, round_step, timer_action, DatagramCursor, FlushError, FlushState, Gathered,
    Produced, ReadOutcome, RecvPoll, RoundStep, SendAction, SendLoop, StreamIdAllocator,
    StreamInbox, TimerAction,
};

#[test]
fn stream_ids_step_by_ten() {
    let mut ids = StreamIdAllocator::new();
    assert_eq!(ids.allocate(), 1);
    assert_eq!(ids.allocate(), 11);
    assert_eq!(ids.allocate(), 21);
}

#[test]
fn inbox_gather_deliver_read() {
    let mut inbox = StreamInbox::new();
    assert_eq!(inbox.read(), ReadOutcome::Wait);
    let mut g = Gathered::new();
    g.push(b"hel", false);
    g.push(b"lo", true);
    inbox.deliver(g);
    assert!(inbox.fin);
    assert_eq!(inbox.read(), ReadOutcome::Data(b"hello".to_vec()));
    assert_eq!(inbox.read(), ReadOutcome::Finished);
}

#[test]
fn gathered_fin_is_last_piece() {
    let mut g = Gathered::new();
    g.push(b"a", true);
    g.push(b"b", false);
    assert_eq!(g.data, b"ab".to_vec());
    assert!(!g.fin);
}

#[test]
fn send_loop_flushes_after_hand_over() {
    let mut run = SendLoop::new();
    assert_eq!(run.step(Produced::Datagram(100), false), SendAction::Pending);
    assert_eq!(run.step(Produced::Done, false), SendAction::Ready);
    assert_eq!(run.step(Produced::Datagram(100), true), SendAction::Transmit(100));
    assert!(run.handed_over);
    assert_eq!(run.step(Produced::Datagram(50), false), SendAction::FlushThenPending);
    assert_eq!(run.step(Produced::Done, true), SendAction::FlushThenReady);
    assert_eq!(run.step(Produced::Failed, true), SendAction::Fail);
}

#[test]
fn flush_state() {
    let mut f = FlushState::new();
    assert!(f.flushed);
    f.queued();
    assert!(!f.flushed);
    assert_eq!(f.written(10, 10), Ok(()));
    assert!(f.flushed);
    f.queued();
    assert_eq!(f.written(3, 10), Err(FlushError::ShortWrite));
    assert!(f.flushed);
}

#[test]
fn timer_actions() {
    assert_eq!(timer_action(true, false), TimerAction::Start);
    assert_eq!(timer_action(true, true), TimerAction::Reset);
    assert_eq!(timer_action(false, true), TimerAction::Clear);
    assert_eq!(timer_action(false, false), TimerAction::Clear);
}

#[test]
fn datagram_cursor() {
    let mut c = DatagramCursor::new(10);
    assert!(c.has_more());
    c.advance(4);
    assert_eq!(c.remaining, 6);
    c.advance(6);
    assert!(!c.has_more());
}

#[test]
fn scids_are_random() {
    let a = generate_scid().unwrap();
    let b = generate_scid().unwrap();
    assert_eq!(a.len(), 20);
    assert_ne!(a, b);
}

#[test]
fn stream_ids_are_distinct() {
    let mut ids = StreamIdAllocator::new();
    let got: Vec<u64> = (0..1000).map(|_| ids.allocate()).collect();
    for (k, id) in got.iter().enumerate() {
        assert_eq!(*id, 10 * k as u64 + 1);
    }
    let mut sorted = got.clone();
    sorted.dedup();
    assert_eq!(sorted.len(), got.len());
}

#[test]
fn buffered_datagram_goes_first() {
    assert_eq!(buffered_datagram(0), None);
    assert_eq!(buffered_datagram(1200), Some(Produced::Datagram(1200)));
}

#[test]
fn round_step_after_receiving() {
    assert_eq!(round_step(RecvPoll::Failed), RoundStep::ReportRecvError);
    assert_eq!(round_step(RecvPoll::Pending), RoundStep::TimersAndSend);
}
