use sink_drivers::flush::Flush;
use sink_drivers::send_all::SendAll;
use sink_drivers::sink::Consumer;
use sink_drivers::stream::{Fuse, Producer};
use sink_drivers::task::Poll;
use std::collections::VecDeque;
use std::sync::Arc;
use std::task::{Wake, Waker};

struct NoWake;

impl Wake for NoWake {
    fn wake(self: Arc<Self>) {}
}

fn waker() -> Waker {
    Waker::from(Arc::new(NoWake))
}

/// A consumer that answers from scripts and logs every call; an empty script
/// answers with success.
#[derive(Default)]
struct ScriptSink {
    ready: VecDeque<Poll<Result<(), &'static str>>>,
    send: VecDeque<Result<(), &'static str>>,
    flush: VecDeque<Poll<Result<(), &'static str>>>,
    sent: Vec<u32>,
    log: Vec<String>,
}

impl Consumer<u32> for ScriptSink {
    type Error = &'static str;

    fn poll_ready(&mut self, _waker: &Waker) -> Poll<Result<(), &'static str>> {
        self.log.push("ready".to_string());
        self.ready.pop_front().unwrap_or(Poll::Ready(Ok(())))
    }

    fn start_send(&mut self, item: u32) -> Result<(), &'static str> {
        assert_eq!(self.log.last().map(|s| s.as_str()), Some("ready"));
        self.log.push(format!("send {}", item));
        self.sent.push(item);
        self.send.pop_front().unwrap_or(Ok(()))
    }

    fn poll_flush(&mut self, _waker: &Waker) -> Poll<Result<(), &'static str>> {
        self.log.push("flush".to_string());
        self.flush.pop_front().unwrap_or(Poll::Ready(Ok(())))
    }
}

/// A producer that answers from a script, and panics if polled again after
/// it has reported the end of its data.
struct ScriptStream {
    script: VecDeque<Poll<Option<u32>>>,
    polls: usize,
    ended: bool,
}

impl ScriptStream {
    fn new(script: Vec<Poll<Option<u32>>>) -> Self {
        ScriptStream { script: script.into_iter().collect(), polls: 0, ended: false }
    }

    fn items(items: &[u32]) -> Self {
        ScriptStream::new(items.iter().map(|&i| Poll::Ready(Some(i))).collect())
    }
}

impl Producer<u32> for ScriptStream {
    fn poll_next(&mut self, _waker: &Waker) -> Poll<Option<u32>> {
        assert!(!self.ended, "polled after the end of the data");
        self.polls += 1;
        let r = self.script.pop_front().unwrap_or(Poll::Ready(None));
        if r == Poll::Ready(None) {
            self.ended = true;
        }
        r
    }
}

#[test]
fn send_all_delivers_every_item_in_order_then_flushes() {
    let w = waker();
    let mut sink = ScriptSink::default();
    let mut stream = ScriptStream::items(&[1, 2, 3, 4, 5]);
    let mut driver = SendAll::new(&mut sink, &mut stream);
    assert_eq!(driver.poll(&w), Poll::Ready(Ok(())));
    drop(driver);
    assert_eq!(sink.sent, vec![1, 2, 3, 4, 5]);
    assert_eq!(sink.log.last().unwrap(), "flush");
    assert_eq!(sink.log.len(), 11);
    assert_eq!(stream.polls, 6);
}

#[test]
fn send_all_of_empty_producer_only_flushes() {
    let w = waker();
    let mut sink = ScriptSink::default();
    let mut stream = ScriptStream::items(&[]);
    let mut driver = SendAll::new(&mut sink, &mut stream);
    assert_eq!(driver.poll(&w), Poll::Ready(Ok(())));
    drop(driver);
    assert_eq!(sink.log, vec!["flush".to_string()]);
}

#[test]
fn send_all_delivers_the_item_held_back_by_backpressure() {
    let w = waker();
    let mut sink = ScriptSink::default();
    sink.ready = vec![Poll::Ready(Ok(())), Poll::Pending].into_iter().collect();
    let mut stream = ScriptStream::items(&[1, 2, 3]);
    let mut driver = SendAll::new(&mut sink, &mut stream);
    assert_eq!(driver.poll(&w), Poll::Pending);
    assert_eq!(driver.poll(&w), Poll::Ready(Ok(())));
    drop(driver);
    assert_eq!(sink.sent, vec![1, 2, 3]);
    assert_eq!(stream.polls, 4);
    let expected: Vec<String> = ["ready", "send 1", "ready", "ready", "send 2", "ready", "send 3", "flush"]
        .iter()
        .map(|s| s.to_string())
        .collect();
    assert_eq!(sink.log, expected);
}

#[test]
fn send_all_keeps_the_item_while_the_consumer_stays_not_ready() {
    let w = waker();
    let mut sink = ScriptSink::default();
    sink.ready = vec![Poll::Pending, Poll::Pending, Poll::Pending].into_iter().collect();
    let mut stream = ScriptStream::items(&[7, 8]);
    let mut driver = SendAll::new(&mut sink, &mut stream);
    assert_eq!(driver.poll(&w), Poll::Pending);
    assert_eq!(driver.poll(&w), Poll::Pending);
    assert_eq!(driver.poll(&w), Poll::Pending);
    assert_eq!(driver.poll(&w), Poll::Ready(Ok(())));
    drop(driver);
    assert_eq!(sink.sent, vec![7, 8]);
    assert_eq!(stream.polls, 3);
}

#[test]
fn send_all_flushes_once_when_the_producer_stalls() {
    let w = waker();
    let mut sink = ScriptSink::default();
    sink.flush = vec![Poll::Pending].into_iter().collect();
    let mut stream = ScriptStream::new(vec![Poll::Pending]);
    let mut driver = SendAll::new(&mut sink, &mut stream);
    assert_eq!(driver.poll(&w), Poll::Pending);
    drop(driver);
    assert!(sink.sent.is_empty());
    assert_eq!(sink.log, vec!["flush".to_string()]);
    assert_eq!(stream.polls, 1);
}

#[test]
fn send_all_returns_pending_after_a_successful_stall_flush() {
    let w = waker();
    let mut sink = ScriptSink::default();
    let mut stream = ScriptStream::new(vec![Poll::Pending, Poll::Ready(Some(4))]);
    let mut driver = SendAll::new(&mut sink, &mut stream);
    assert_eq!(driver.poll(&w), Poll::Pending);
    assert_eq!(driver.poll(&w), Poll::Ready(Ok(())));
    drop(driver);
    assert_eq!(sink.sent, vec![4]);
    assert_eq!(stream.polls, 3);
}

#[test]
fn send_all_fails_when_the_stall_flush_fails() {
    let w = waker();
    let mut sink = ScriptSink::default();
    sink.flush = vec![Poll::Ready(Err("flush failed"))].into_iter().collect();
    let mut stream = ScriptStream::new(vec![Poll::Pending]);
    let mut driver = SendAll::new(&mut sink, &mut stream);
    assert_eq!(driver.poll(&w), Poll::Ready(Err("flush failed")));
}

#[test]
fn send_all_stops_at_a_readiness_error() {
    let w = waker();
    let mut sink = ScriptSink::default();
    sink.ready = vec![Poll::Ready(Ok(())), Poll::Ready(Ok(())), Poll::Ready(Err("not accepting"))]
        .into_iter()
        .collect();
    let mut stream = ScriptStream::items(&[1, 2, 3, 4, 5]);
    let mut driver = SendAll::new(&mut sink, &mut stream);
    assert_eq!(driver.poll(&w), Poll::Ready(Err("not accepting")));
    drop(driver);
    assert_eq!(sink.sent, vec![1, 2]);
    assert_eq!(stream.polls, 3);
    assert_eq!(stream.script.len(), 2);
}

#[test]
fn send_all_stops_at_a_send_error() {
    let w = waker();
    let mut sink = ScriptSink::default();
    sink.send = vec![Ok(()), Err("rejected")].into_iter().collect();
    let mut stream = ScriptStream::items(&[1, 2, 3]);
    let mut driver = SendAll::new(&mut sink, &mut stream);
    assert_eq!(driver.poll(&w), Poll::Ready(Err("rejected")));
    drop(driver);
    assert_eq!(sink.sent, vec![1, 2]);
    assert_eq!(stream.polls, 2);
}

#[test]
fn send_all_fails_when_the_buffered_item_meets_an_error() {
    let w = waker();
    let mut sink = ScriptSink::default();
    sink.ready = vec![Poll::Pending, Poll::Ready(Err("gone"))].into_iter().collect();
    let mut stream = ScriptStream::items(&[1, 2]);
    let mut driver = SendAll::new(&mut sink, &mut stream);
    assert_eq!(driver.poll(&w), Poll::Pending);
    assert_eq!(driver.poll(&w), Poll::Ready(Err("gone")));
    drop(driver);
    assert!(sink.sent.is_empty());
    assert_eq!(stream.polls, 1);
}

#[test]
fn send_all_final_flush_pending_does_not_poll_the_ended_producer() {
    let w = waker();
    let mut sink = ScriptSink::default();
    sink.flush = vec![Poll::Pending, Poll::Pending].into_iter().collect();
    let mut stream = ScriptStream::items(&[9]);
    let mut driver = SendAll::new(&mut sink, &mut stream);
    assert_eq!(driver.poll(&w), Poll::Pending);
    assert_eq!(driver.poll(&w), Poll::Pending);
    assert_eq!(driver.poll(&w), Poll::Ready(Ok(())));
    drop(driver);
    assert_eq!(sink.sent, vec![9]);
    assert_eq!(stream.polls, 2);
}

#[test]
fn send_all_final_flush_error_is_returned() {
    let w = waker();
    let mut sink = ScriptSink::default();
    sink.flush = vec![Poll::Ready(Err("disk full"))].into_iter().collect();
    let mut stream = ScriptStream::items(&[1]);
    let mut driver = SendAll::new(&mut sink, &mut stream);
    assert_eq!(driver.poll(&w), Poll::Ready(Err("disk full")));
}

#[test]
fn send_all_dropped_with_a_buffered_item_loses_it() {
    let w = waker();
    let mut sink = ScriptSink::default();
    sink.ready = vec![Poll::Pending].into_iter().collect();
    let mut stream = ScriptStream::items(&[1, 2]);
    let mut driver = SendAll::new(&mut sink, &mut stream);
    assert_eq!(driver.poll(&w), Poll::Pending);
    drop(driver);
    assert!(sink.sent.is_empty());
    assert_eq!(stream.polls, 1);
    let mut rest = Fuse::new(&mut stream);
    assert_eq!(rest.poll_next(&w), Poll::Ready(Some(2)));
}

#[test]
fn send_all_with_owned_handles() {
    let w = waker();
    let mut driver = SendAll::new(ScriptSink::default(), ScriptStream::items(&[3, 1, 2]));
    assert_eq!(driver.poll(&w), Poll::Ready(Ok(())));
}

#[test]
fn flush_resolves_at_once_when_the_consumer_is_flushed() {
    let w = waker();
    let mut sink = ScriptSink::default();
    let mut flush = Flush::new(&mut sink);
    assert_eq!(flush.poll(&w), Poll::Ready(Ok(())));
    drop(flush);
    assert_eq!(sink.log, vec!["flush".to_string()]);
}

#[test]
fn flush_is_pending_once_then_resolves() {
    let w = waker();
    let mut sink = ScriptSink::default();
    sink.flush = vec![Poll::Pending, Poll::Ready(Ok(()))].into_iter().collect();
    let mut flush = Flush::new(&mut sink);
    assert_eq!(flush.poll(&w), Poll::Pending);
    assert_eq!(flush.poll(&w), Poll::Ready(Ok(())));
    drop(flush);
    assert_eq!(sink.log.len(), 2);
}

#[test]
fn flush_passes_an_error_through() {
    let w = waker();
    let mut sink = ScriptSink::default();
    sink.flush = vec![Poll::Ready(Err("broken pipe"))].into_iter().collect();
    let mut flush = Flush::new(&mut sink);
    assert_eq!(flush.poll(&w), Poll::Ready(Err("broken pipe")));
}

#[test]
fn flush_owns_and_returns_its_consumer() {
    let w = waker();
    let mut flush = Flush::new(ScriptSink::default());
    assert_eq!(flush.poll(&w), Poll::Ready(Ok(())));
    assert_eq!(flush.get_ref().log.len(), 1);
    let sink = flush.into_inner();
    assert!(sink.sent.is_empty());
}

#[test]
fn fuse_does_not_poll_an_exhausted_producer_again() {
    let w = waker();
    let mut fuse = Fuse::new(ScriptStream::items(&[5]));
    assert!(!fuse.is_terminated());
    assert_eq!(fuse.poll_next(&w), Poll::Ready(Some(5)));
    assert_eq!(fuse.poll_next(&w), Poll::Ready(None));
    assert!(fuse.is_terminated());
    assert_eq!(fuse.poll_next(&w), Poll::Ready(None));
    assert_eq!(fuse.poll_next(&w), Poll::Ready(None));
    assert_eq!(fuse.get_ref().polls, 2);
    assert_eq!(fuse.into_inner().polls, 2);
}

#[test]
fn fuse_passes_pending_through() {
    let w = waker();
    let mut fuse = Fuse::new(ScriptStream::new(vec![Poll::Pending, Poll::Ready(Some(1))]));
    assert_eq!(fuse.poll_next(&w), Poll::Pending);
    assert!(!fuse.is_terminated());
    assert_eq!(fuse.poll_next(&w), Poll::Ready(Some(1)));
}

#[test]
fn poll_reports_its_state() {
    let ready: Poll<u8> = Poll::Ready(3);
    let pending: Poll<u8> = Poll::Pending;
    assert!(ready.is_ready());
    assert!(!ready.is_pending());
    assert!(pending.is_pending());
    assert!(!pending.is_ready());
}
