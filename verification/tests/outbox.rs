use potato_core::outbox::{check_queued, replace_text, Action, Block, ItemState, Outbox};

type Queue = Outbox<String>;

fn add(q: &mut Queue, id: &str) {
    q.apply(
        Action::Add { id: id.to_owned(), checked: Ok(()), payload: id.to_owned(), immediate: false },
        0,
    )
    .unwrap();
}

fn ids(q: &Queue) -> Vec<&str> {
    q.items.iter().map(|i| i.id.as_str()).collect()
}

#[test]
fn outbox_is_durable_idempotent_and_pauses_on_restart() {
    let mut q = Queue::new();
    add(&mut q, "a");
    add(&mut q, "a");
    add(&mut q, "b");
    assert_eq!(q.items.len(), 2);
    q.recover();
    assert!(q.paused);
    assert_eq!(q.items[0].id, "a");
}

#[test]
fn outbox_promote_preserves_remaining_order_and_edit_blocks_dispatch() {
    let mut q = Queue::new();
    for id in ["a", "b", "c"] {
        add(&mut q, id);
    }
    q.apply(Action::Promote { id: "c".into() }, 1).unwrap();
    assert_eq!(q.items[0].id, "c");
    assert_eq!(q.items[1].id, "a");
    assert!(q.apply(Action::Promote { id: "b".into() }, 2).is_err());
    q.apply(Action::Pause, 3).unwrap();
    q.apply(Action::Edit { id: "c".into() }, 3).unwrap();
    q.apply(Action::Resume, 3).unwrap();
    q.expire(4);
    assert!(!q.claim(true, false));
    assert_eq!(q.items[0].state, ItemState::Editing);
}

#[test]
fn outbox_failure_keeps_content_and_manual_stop_pauses() {
    let mut q = Queue::new();
    add(&mut q, "a");
    assert!(q.claim(true, false));
    q.start_failed("No active model is configured");
    assert!(q.paused);
    assert_eq!(q.items[0].state, ItemState::Pending);
    q.apply(Action::Resume, 0).unwrap();
    q.finish("cancelled");
    assert!(q.paused);
    q.apply(Action::Promote { id: "a".into() }, 0).unwrap();
    q.finish("cancelled");
    assert!(!q.paused);
}

#[test]
fn outbox_uncertain_claim_never_replays_after_restart() {
    let mut q = Queue::new();
    add(&mut q, "a");
    q.items[0].state = ItemState::Dispatching;
    q.recover();
    q.apply(Action::Resume, 0).unwrap();
    assert!(!q.claim(true, false));
    assert_eq!(q.items[0].state, ItemState::Uncertain);
}

#[test]
fn outbox_retry_after_delete_is_not_a_new_message_and_sessions_are_isolated() {
    let mut q = Queue::new();
    add(&mut q, "a");
    q.apply(Action::Delete { id: "a".into() }, 0).unwrap();
    add(&mut q, "a");
    assert!(q.items.is_empty());
    let other = Queue::new();
    assert!(other.items.is_empty());
    add(&mut q, "b");
    q.apply(Action::Promote { id: "b".into() }, 1_000_000).unwrap();
    q.interrupt_at = 0;
    assert!(q.expire(1_000_000));
    assert!(!q.claim(true, false));
    assert!(q.paused);
    assert_eq!(q.items[0].state, ItemState::Pending);
    assert!(q.reason.contains("超时"));
}

#[test]
fn outbox_edit_keeps_attachments_and_queue_position() {
    let mut q: Outbox<Vec<Block<String>>> = Outbox::new();
    let blocks = vec![
        Block { kind: "text".into(), text: "before".into(), data: "text".into() },
        Block { kind: "image".into(), text: String::new(), data: "data:image/png;base64,YQ==".into() },
    ];
    q.apply(Action::Add { id: "file".into(), checked: Ok(()), payload: blocks, immediate: false }, 0).unwrap();
    q.apply(Action::Add { id: "second".into(), checked: Ok(()), payload: vec![], immediate: false }, 0).unwrap();
    q.apply(Action::Edit { id: "file".into() }, 0).unwrap();
    let current = std::mem::take(&mut q.items[0].payload);
    let edited = replace_text(current, "after", "text".to_owned());
    q.apply(Action::Save { id: "file".into(), text: "after".into(), payload: edited }, 0).unwrap();
    assert_eq!(q.items[0].payload[1].data, "data:image/png;base64,YQ==");
    assert_eq!(q.items[0].payload[0].text, "after");
    assert_eq!(q.items[1].id, "second");
    assert_eq!(q.items[0].state, ItemState::Pending);
}

#[test]
fn queue_refuses_work_while_stopping_and_unknown_items() {
    let mut q = Queue::new();
    add(&mut q, "a");
    add(&mut q, "b");
    q.apply(Action::Promote { id: "b".into() }, 5).unwrap();
    let e = q.apply(Action::Delete { id: "a".into() }, 5).unwrap_err();
    assert_eq!((e.status, e.message.as_str()), (409, "正在停止，请稍候"));
    q.apply(Action::Pause, 5).unwrap();
    assert_eq!(q.apply(Action::Delete { id: "zzz".into() }, 5).unwrap_err().status, 404);
    assert_eq!(q.apply(Action::Delete { id: " ".into() }, 5).unwrap_err().message, "id is required");
    assert_eq!(q.apply(Action::Unknown, 5).unwrap_err().status, 400);
    q.apply(Action::Up { id: "a".into() }, 5).unwrap();
    assert_eq!(ids(&q), vec!["a", "b"]);
    q.apply(Action::Down { id: "a".into() }, 5).unwrap();
    assert_eq!(ids(&q), vec!["b", "a"]);
    q.apply(Action::Down { id: "a".into() }, 5).unwrap();
    assert_eq!(ids(&q), vec!["b", "a"]);
}

#[test]
fn queue_holds_at_most_one_hundred_items() {
    let mut q = Queue::new();
    for i in 0..100 {
        add(&mut q, &format!("m{i}"));
    }
    let e = q
        .apply(Action::Add { id: "x".into(), checked: Ok(()), payload: String::new(), immediate: false }, 0)
        .unwrap_err();
    assert_eq!(e.message, "待发送消息最多 100 条");
    assert_eq!(q.items.len(), 100);
}

#[test]
fn claimed_head_leaves_the_queue_when_started() {
    let mut q = Queue::new();
    add(&mut q, "a");
    add(&mut q, "b");
    assert!(!q.claim(false, false));
    assert!(!q.claim(true, true));
    assert!(q.claim(true, false));
    assert_eq!(q.items[0].state, ItemState::Dispatching);
    assert!(!q.claim(true, false));
    q.started();
    assert_eq!(ids(&q), vec!["b"]);
}

#[test]
fn immediate_add_promotes_the_new_item() {
    let mut q = Queue::new();
    add(&mut q, "a");
    q.apply(Action::Add { id: "b".into(), checked: Ok(()), payload: "b".into(), immediate: true }, 7).unwrap();
    assert_eq!(ids(&q), vec!["b", "a"]);
    assert!(q.interrupt);
    assert_eq!(q.interrupt_at, 7);
}

#[test]
fn queued_requests_must_hold_one_user_message_with_content() {
    let text = |t: &str| Block { kind: "text".to_owned(), text: t.to_owned(), data: () };
    let blank = vec![text("  ")];
    let image = vec![Block { kind: "image".to_owned(), text: String::new(), data: () }];
    assert!(check_queued("s", Some("s"), Some(1), Some("user"), Some(&image)).is_ok());
    assert_eq!(
        check_queued("s", Some("s"), Some(1), Some("user"), Some(&blank)).unwrap_err().message,
        "Message is empty"
    );
    assert_eq!(
        check_queued("s", Some("t"), Some(1), Some("user"), Some(&image)).unwrap_err().message,
        "Invalid queued request"
    );
    assert_eq!(
        check_queued("s", Some("s"), Some(2), Some("user"), Some(&image)).unwrap_err().message,
        "Invalid queued request"
    );
    assert_eq!(
        check_queued::<()>("s", Some("s"), Some(1), Some("user"), None).unwrap_err().message,
        "Invalid message"
    );
    let mut q = Queue::new();
    let checked = check_queued::<()>("s", Some("s"), Some(1), Some("assistant"), None);
    let e = q
        .apply(Action::Add { id: "a".into(), checked, payload: String::new(), immediate: false }, 0)
        .unwrap_err();
    assert_eq!(e.status, 400);
    assert!(q.items.is_empty());
}
