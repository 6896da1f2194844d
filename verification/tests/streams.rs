use util::select::{PollStep, Polled};
use util::timeout::{after_task, after_timer, DelayStep, Elapsed};
use util::{Select, StreamVec};

#[test]
fn select_of_nothing_is_finished() {
    let s: Select<u8> = Select(vec![]);
    assert_eq!(s.first_step::<u32>(), PollStep::Done);
    assert_eq!(s.size_hint(), (0, Some(0)));
}

#[test]
fn select_polls_in_order_and_removes_the_ready_future() {
    let mut s = Select(vec!['a', 'b', 'c']);
    assert_eq!(s.size_hint(), (3, Some(3)));
    assert_eq!(s.first_step::<u32>(), PollStep::PollAt(0));
    assert_eq!(s.next_step(0, Polled::<u32>::Pending), PollStep::PollAt(1));
    assert_eq!(s.next_step(1, Polled::Ready(7u32)), PollStep::Yield(7));
    assert_eq!(s.0, vec!['a', 'c']);
    assert_eq!(s.size_hint(), (2, Some(2)));
}

#[test]
fn select_with_nothing_ready_is_pending() {
    let mut s = Select(vec![1u8, 2]);
    assert_eq!(s.next_step(0, Polled::<()>::Pending), PollStep::PollAt(1));
    assert_eq!(s.next_step(1, Polled::<()>::Pending), PollStep::Wait);
    assert_eq!(s.0, vec![1, 2]);
}

#[test]
fn select_yields_once_per_future() {
    let mut s = Select(vec![10u8, 20, 30]);
    let mut yielded = Vec::new();
    loop {
        match s.first_step::<u8>() {
            PollStep::PollAt(i) => {
                let v = s.0[i];
                match s.next_step(i, Polled::Ready(v)) {
                    PollStep::Yield(o) => yielded.push(o),
                    other => panic!("unexpected step {:?}", other),
                }
            }
            PollStep::Done => break,
            other => panic!("unexpected step {:?}", other),
        }
    }
    assert_eq!(yielded, vec![10, 20, 30]);
}

#[test]
fn stream_vec_behaves_as_select() {
    let mut s = StreamVec::from_vec(vec![5u8, 6]);
    assert_eq!(s.len(), 2);
    assert_eq!(s.size_hint(), (2, Some(2)));
    *s.future_mut(1) = 9;
    assert_eq!(s.first_step::<u8>(), PollStep::PollAt(0));
    assert_eq!(s.next_step(0, Polled::<u8>::Pending), PollStep::PollAt(1));
    assert_eq!(s.next_step(1, Polled::Ready(9u8)), PollStep::Yield(9));
    assert_eq!(s.len(), 1);
    assert_eq!(s.next_step(0, Polled::Ready(5u8)), PollStep::Yield(5));
    assert_eq!(s.first_step::<u8>(), PollStep::Done);
}

#[test]
fn ready_task_wins_over_the_timer() {
    assert_eq!(after_task(Polled::Ready(3u8)), DelayStep::Finish(Ok(3)));
}

#[test]
fn pending_task_then_timer() {
    assert_eq!(after_task(Polled::<u8>::Pending), DelayStep::PollTimer);
    assert_eq!(after_timer::<u8, ()>(Polled::Ready(())), DelayStep::Finish(Err(Elapsed)));
    assert_eq!(after_timer::<u8, ()>(Polled::Pending), DelayStep::Wait);
}

#[test]
fn elapsed_message() {
    assert_eq!(Elapsed.message(), "Timeout!");
}
