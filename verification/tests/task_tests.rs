use fluxio::body::fluxio_body_data;
use fluxio::body::fluxio_body_data_reply;
use fluxio::body::fluxio_body_foreach;
use fluxio::body::fluxio_body_new;
use fluxio::body::fluxio_body_push_reply;
use fluxio::buf::fluxio_buf_bytes;
use fluxio::buf::fluxio_buf_copy;
use fluxio::error::fluxio_code;
use fluxio::task::TaskValue;
use fluxio::task::fluxio_context;
use fluxio::task::fluxio_context_waker;
use fluxio::task::fluxio_executor_free;
use fluxio::task::fluxio_executor_new;
use fluxio::task::fluxio_executor_poll;
use fluxio::task::fluxio_executor_push;
use fluxio::task::fluxio_task;
use fluxio::task::fluxio_task_foreach_delivered;
use fluxio::task::fluxio_task_free;
use fluxio::task::fluxio_task_return_type;
use fluxio::task::fluxio_task_set_userdata;
use fluxio::task::fluxio_task_type;
use fluxio::task::fluxio_task_userdata;
use fluxio::task::fluxio_task_value;
use fluxio::task::fluxio_waker_free;
use fluxio::task::fluxio_waker_wake;

#[test]
fn task_value_taken_once_then_no_value() {
    let mut exec = fluxio_executor_new();
    let task = fluxio_task::immediate(TaskValue::Empty);
    assert_eq!(fluxio_executor_push(&mut exec, task), fluxio_code::FLUXIO_OK);
    let mut done = fluxio_executor_poll(&mut exec).expect("an immediate task completes");

    assert_eq!(fluxio_task_type(&done), fluxio_task_return_type::FLUXIO_TASK_EMPTY);
    let first = fluxio_task_value(&mut done);
    assert!(matches!(first, Some(TaskValue::Empty)));
    // A second take observes "no value".
    let second = fluxio_task_value(&mut done);
    assert!(second.is_none());
    assert_eq!(fluxio_task_type(&done), fluxio_task_return_type::FLUXIO_TASK_EMPTY);
    fluxio_task_free(done);
}

#[test]
fn n_immediate_tasks_yield_n_completions_then_nothing() {
    let n: usize = 5;
    let mut exec = fluxio_executor_new();
    for i in 0..n {
        let mut task = fluxio_task::immediate(TaskValue::Empty);
        fluxio_task_set_userdata(&mut task, i + 1);
        fluxio_executor_push(&mut exec, task);
    }
    for i in 0..n {
        let done = fluxio_executor_poll(&mut exec).expect("one completion per poll");
        assert_eq!(fluxio_task_userdata(&done), i + 1);
        assert!(done.output.is_some());
    }
    // Exhausted: nothing ready.
    assert!(fluxio_executor_poll(&mut exec).is_none());
    assert!(fluxio_executor_poll(&mut exec).is_none());
}

#[test]
fn wake_during_poll_retries_without_second_trigger() {
    // The producer reports pending but its waker fires before the poller
    // would otherwise give up: one executor poll must already resolve it.
    let mut body = fluxio_body_new();
    fluxio_body_push_reply(&mut body, fluxio_body_data_reply::Pending { wake: true });
    fluxio_body_push_reply(
        &mut body,
        fluxio_body_data_reply::Ready(Some(fluxio_buf_copy(&b"woken".to_vec()))),
    );
    let task = fluxio_body_data(body);

    let mut exec = fluxio_executor_new();
    fluxio_executor_push(&mut exec, task);
    let mut done = fluxio_executor_poll(&mut exec).expect("retry on wake-during-poll");
    assert_eq!(fluxio_task_type(&done), fluxio_task_return_type::FLUXIO_TASK_BUF);
    match fluxio_task_value(&mut done) {
        Some(TaskValue::Buf(b)) => assert_eq!(fluxio_buf_bytes(&b), b"woken".to_vec()),
        _ => panic!("expected the chunk"),
    }
}

#[test]
fn pending_without_wake_needs_external_trigger() {
    let mut body = fluxio_body_new();
    fluxio_body_push_reply(&mut body, fluxio_body_data_reply::Pending { wake: false });
    fluxio_body_push_reply(
        &mut body,
        fluxio_body_data_reply::Ready(Some(fluxio_buf_copy(&b"later".to_vec()))),
    );
    let task = fluxio_body_data(body);

    let mut exec = fluxio_executor_new();
    fluxio_executor_push(&mut exec, task);
    // Nothing woke during the poll: the task parks.
    assert!(fluxio_executor_poll(&mut exec).is_none());
    // The caller re-polls once the external waker fired.
    let cx = fluxio_context::wrap();
    let waker = fluxio_context_waker(&cx);
    fluxio_waker_wake(waker, &mut exec);
    let done = fluxio_executor_poll(&mut exec).expect("resumes once woken");
    assert_eq!(fluxio_task_type(&done), fluxio_task_return_type::FLUXIO_TASK_BUF);
}

#[test]
fn freeing_a_waker_wakes_nothing() {
    let cx = fluxio_context::wrap();
    let waker = fluxio_context_waker(&cx);
    fluxio_waker_free(waker);
}

#[test]
fn foreach_break_on_second_chunk_aborts_after_two_deliveries() {
    let mut body = fluxio_body_new();
    for chunk in [&b"one"[..], &b"two"[..], &b"three"[..]] {
        fluxio_body_push_reply(
            &mut body,
            fluxio_body_data_reply::Ready(Some(fluxio_buf_copy(&chunk.to_vec()))),
        );
    }
    let decisions = vec![fluxio::FLUXIO_ITER_CONTINUE, fluxio::FLUXIO_ITER_BREAK];
    let task = fluxio_body_foreach(body, decisions);

    let mut exec = fluxio_executor_new();
    fluxio_executor_push(&mut exec, task);
    let mut done = fluxio_executor_poll(&mut exec).expect("the foreach resolves");

    // Exactly two chunks were handed to the callback.
    let delivered = fluxio_task_foreach_delivered(&done);
    assert_eq!(delivered.len(), 2);
    assert_eq!(fluxio_buf_bytes(&delivered[0]), b"one".to_vec());
    assert_eq!(fluxio_buf_bytes(&delivered[1]), b"two".to_vec());

    // The abort is the caller's, not a transport failure.
    assert_eq!(fluxio_task_type(&done), fluxio_task_return_type::FLUXIO_TASK_ERROR);
    match fluxio_task_value(&mut done) {
        Some(TaskValue::Failed(e)) => {
            assert_eq!(e.code(), fluxio_code::FLUXIO_ABORTED_BY_CALLBACK);
        },
        _ => panic!("expected the aborted-by-callback error"),
    }
}

#[test]
fn foreach_transport_error_is_not_an_abort() {
    let mut body = fluxio_body_new();
    fluxio_body_push_reply(
        &mut body,
        fluxio_body_data_reply::Ready(Some(fluxio_buf_copy(&b"one".to_vec()))),
    );
    fluxio_body_push_reply(&mut body, fluxio_body_data_reply::Fault);
    let task = fluxio_body_foreach(body, vec![fluxio::FLUXIO_ITER_CONTINUE; 4]);

    let mut exec = fluxio_executor_new();
    fluxio_executor_push(&mut exec, task);
    let mut done = fluxio_executor_poll(&mut exec).expect("the foreach resolves");
    match fluxio_task_value(&mut done) {
        Some(TaskValue::Failed(e)) => {
            assert_eq!(e.code(), fluxio_code::FLUXIO_ERROR);
        },
        _ => panic!("expected the body failure"),
    }
}

#[test]
fn foreach_clean_end_resolves_empty() {
    let mut body = fluxio_body_new();
    fluxio_body_push_reply(
        &mut body,
        fluxio_body_data_reply::Ready(Some(fluxio_buf_copy(&b"only".to_vec()))),
    );
    fluxio_body_push_reply(&mut body, fluxio_body_data_reply::Ready(None));
    let task = fluxio_body_foreach(body, vec![fluxio::FLUXIO_ITER_CONTINUE; 4]);

    let mut exec = fluxio_executor_new();
    fluxio_executor_push(&mut exec, task);
    let done = fluxio_executor_poll(&mut exec).expect("the foreach resolves");
    assert_eq!(fluxio_task_type(&done), fluxio_task_return_type::FLUXIO_TASK_EMPTY);
    assert_eq!(fluxio_task_foreach_delivered(&done).len(), 1);
}

#[test]
fn dropping_an_executor_with_incomplete_tasks_completes_nothing() {
    let mut exec = fluxio_executor_new();
    for _ in 0..3 {
        let mut body = fluxio_body_new();
        fluxio_body_push_reply(&mut body, fluxio_body_data_reply::Pending { wake: false });
        fluxio_executor_push(&mut exec, fluxio_body_data(body));
    }
    // None of the tasks has completed; freeing the executor drops them
    // without any completion being observable anywhere.
    assert!(fluxio_executor_poll(&mut exec).is_none());
    fluxio_executor_free(exec);
}

#[test]
fn completed_data_task_hands_the_body_back() {
    let mut body = fluxio_body_new();
    for chunk in [&b"first"[..], &b"second"[..]] {
        fluxio_body_push_reply(
            &mut body,
            fluxio_body_data_reply::Ready(Some(fluxio_buf_copy(&chunk.to_vec()))),
        );
    }
    let mut exec = fluxio_executor_new();
    fluxio_executor_push(&mut exec, fluxio_body_data(body));
    let mut done = fluxio_executor_poll(&mut exec).expect("first chunk resolves");
    match fluxio_task_value(&mut done) {
        Some(TaskValue::Buf(b)) => assert_eq!(fluxio_buf_bytes(&b), b"first".to_vec()),
        _ => panic!("expected the first chunk"),
    }
    // The body comes back with the unread replies still queued.
    let body = fluxio::task::fluxio_task_take_body(&mut done).expect("body handed back");
    assert!(fluxio::task::fluxio_task_take_body(&mut done).is_none());

    fluxio_executor_push(&mut exec, fluxio_body_data(body));
    let mut again = fluxio_executor_poll(&mut exec).expect("second chunk resolves");
    match fluxio_task_value(&mut again) {
        Some(TaskValue::Buf(b)) => assert_eq!(fluxio_buf_bytes(&b), b"second".to_vec()),
        _ => panic!("expected the second chunk"),
    }
}
