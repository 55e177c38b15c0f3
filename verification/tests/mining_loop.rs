use keryx_miner::devfund::{DevfundCounter, DEVFUND_ADDRESS};
use keryx_miner::mining_loop::{
    open_failed, template_request, LoopAction, LoopEvent, LoopPhase, LoopReply, MiningLoop, OpenFailure,
    OpeningMessage,
};

const SECOND: u64 = 1_000_000_000;

fn new_loop() -> MiningLoop {
    MiningLoop::new("keryx:me".into(), "1.2.3".into())
}

fn send(l: &mut MiningLoop, event: LoopEvent) -> LoopReply {
    l.on_event(&mut DevfundCounter { next: 500 }, &event)
}

#[test]
fn a_request_says_who_asks() {
    let mut counter = DevfundCounter { next: 199 };
    let first = template_request(&mut counter, "keryx:me", "1.2.3");
    assert_eq!(first.pay_address, DEVFUND_ADDRESS);
    assert_eq!(first.extra_data, "keryx-miner-ios/1.2.3");
    assert_eq!(first.inference_result, "");
    assert_eq!(template_request(&mut counter, "keryx:me", "1.2.3").pay_address, "keryx:me");
    assert_eq!(counter.next, 201);
}

#[test]
fn the_loop_subscribes_before_it_asks() {
    let mut counter = DevfundCounter { next: 0 };
    let messages = new_loop().begin(&mut counter);
    assert_eq!(messages.len(), 2);
    assert!(matches!(messages[0], OpeningMessage::Subscribe));
    match &messages[1] {
        OpeningMessage::Request(request) => {
            assert_eq!(request.pay_address, DEVFUND_ADDRESS);
            assert_eq!(request.extra_data, "keryx-miner-ios/1.2.3");
            assert_eq!(request.inference_result, "");
        }
        OpeningMessage::Subscribe => panic!("no request"),
    }
    assert_eq!(counter.next, 1);
}

#[test]
fn every_notification_makes_a_request() {
    let mut counter = DevfundCounter { next: 300 };
    let mut l = new_loop();
    let mut requests = l
        .begin(&mut counter)
        .iter()
        .filter(|m| matches!(m, OpeningMessage::Request(_)))
        .count();
    for i in 0..9 {
        let event = if i % 3 == 0 { LoopEvent::NewTemplate } else { LoopEvent::Other };
        if matches!(l.on_event(&mut counter, &event).action, LoopAction::Request(_)) {
            requests += 1;
        }
    }
    assert_eq!(requests, 4);
    assert_eq!(counter.next, 304);
}

#[test]
fn failures_to_begin_are_logged() {
    assert_eq!(
        open_failed(&OpenFailure::Endpoint("bad".into())),
        "ios: invalid gRPC endpoint: bad"
    );
    assert_eq!(open_failed(&OpenFailure::Connect("off".into())), "ios: gRPC connect failed: off");
    assert_eq!(
        open_failed(&OpenFailure::Stream("eof".into())),
        "ios: gRPC stream open failed: eof"
    );
}

#[test]
fn template_messages_are_throttled() {
    let mut l = new_loop();
    let mut logged = Vec::new();
    for (i, at) in [0, 1, 2 * SECOND - 1, 2 * SECOND, 3 * SECOND, 4 * SECOND].iter().enumerate() {
        let reply =
            send(&mut l, LoopEvent::Template { daa: Some(i as u64), job: Ok(()), at: *at });
        assert!(matches!(reply.action, LoopAction::Publish));
        logged.extend(reply.message);
    }
    assert_eq!(
        logged,
        vec![
            "ios: mining on latest template DAA=0",
            "ios: mining on latest template DAA=3",
            "ios: mining on latest template DAA=5",
        ]
    );
}

#[test]
fn a_bad_template_is_not_mined() {
    let mut l = new_loop();
    let reply = send(&mut l, LoopEvent::Template { daa: None, job: Err("no header".into()), at: 9 });
    assert!(matches!(reply.action, LoopAction::Wait));
    assert_eq!(reply.message.as_deref(), Some("ios: bad template DAA=0: no header"));
    assert_eq!(l.last_log, None);
}

#[test]
fn a_new_template_is_asked_for() {
    let mut l = new_loop();
    let mut counter = DevfundCounter { next: 9999 };
    let reply = l.on_event(&mut counter, &LoopEvent::NewTemplate);
    assert_eq!(reply.message, None);
    match reply.action {
        LoopAction::Request(request) => {
            assert_eq!(request.pay_address, "keryx:me");
            assert_eq!(request.extra_data, "keryx-miner-ios/1.2.3");
        }
        _ => panic!("no request"),
    }
    assert_eq!(counter.next, 0);
}

#[test]
fn answers_and_other_messages_change_nothing() {
    let mut l = new_loop();
    let reply = send(&mut l, LoopEvent::SubmitResponse("None".into()));
    assert!(matches!(reply.action, LoopAction::Wait));
    assert_eq!(reply.message.as_deref(), Some("ios: submit block response: reject=None"));
    let reply = send(&mut l, LoopEvent::Other);
    assert!(matches!(reply.action, LoopAction::Wait) && reply.message.is_none());
    let reply = send(&mut l, LoopEvent::StopSignal(false));
    assert!(matches!(reply.action, LoopAction::Wait) && reply.message.is_none());
    assert_eq!(l.phase, LoopPhase::Receiving);
}

#[test]
fn the_loop_ends_with_the_stream_or_when_told_to() {
    for (event, message) in [
        (LoopEvent::Closed, "ios: gRPC stream closed"),
        (LoopEvent::ReceiveError("reset".into()), "ios: gRPC recv error: reset"),
        (LoopEvent::StopSignal(true), "ios: stop requested"),
    ] {
        let mut l = new_loop();
        let reply = send(&mut l, event);
        assert!(matches!(reply.action, LoopAction::Leave));
        assert_eq!(reply.message.as_deref(), Some(message));
        assert_eq!(l.phase, LoopPhase::Leaving);
        let reply = send(&mut l, LoopEvent::WorkerJoined);
        assert!(matches!(reply.action, LoopAction::Return));
        assert_eq!(reply.message.as_deref(), Some("ios: mining loop ended"));
        assert_eq!(l.phase, LoopPhase::Over);
    }
}
