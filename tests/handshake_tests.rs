use lanpeer::handshake::{
    CipherSuiteStep, FinishStep, HandshakeRole, HelloStep, KyberExchangeStep, StepAction, StepEvent, TlsState,
};

fn expect_write(a: StepAction) -> Vec<u8> {
    match a {
        StepAction::Write(b) => b,
        other => panic!("expected a write, got {:?}", other),
    }
}

fn expect_read_exact(a: StepAction, len: usize, timeout: Option<u64>) {
    match a {
        StepAction::ReadExact { len: l, timeout_ms } => {
            assert_eq!(l, len);
            assert_eq!(timeout_ms, timeout);
        }
        other => panic!("expected a read, got {:?}", other),
    }
}

fn expect_sleep(a: StepAction) {
    match a {
        StepAction::Sleep(ms) => assert!((100..500).contains(&ms)),
        other => panic!("expected a sleep, got {:?}", other),
    }
}

fn expect_done(a: StepAction) -> Vec<u8> {
    match a {
        StepAction::Done(b) => b,
        other => panic!("expected done, got {:?}", other),
    }
}

#[test]
fn unknown_without_traffic_becomes_initiator_and_greets() {
    let mut s = HelloStep::new("proto", HandshakeRole::Unknown);
    expect_read_exact(s.execute(StepEvent::Start(vec![])), 5, Some(3000));
    expect_sleep(s.execute(StepEvent::TimedOut));
    assert_eq!(s.role(), HandshakeRole::Initiator);
    assert_eq!(expect_write(s.execute(StepEvent::Slept)), b"HELLO".to_vec());
    expect_read_exact(s.execute(StepEvent::Written), 9, None);
    assert!(expect_done(s.execute(StepEvent::Received(b"HELLO_ACK".to_vec()))).is_empty());
}

#[test]
fn unknown_hearing_hello_backs_off_and_probes_again() {
    let mut s = HelloStep::new("proto", HandshakeRole::Unknown);
    expect_read_exact(s.execute(StepEvent::Start(vec![])), 5, Some(3000));
    expect_sleep(s.execute(StepEvent::Received(b"HELLO".to_vec())));
    expect_read_exact(s.execute(StepEvent::Slept), 5, Some(3000));
    assert_eq!(s.role(), HandshakeRole::Unknown);
}

#[test]
fn repeated_collisions_give_up() {
    let mut s = HelloStep::new("proto", HandshakeRole::Unknown);
    s.execute(StepEvent::Start(vec![]));
    for _ in 0..9 {
        expect_sleep(s.execute(StepEvent::Received(b"HELLO".to_vec())));
        s.execute(StepEvent::Slept);
    }
    assert!(matches!(s.execute(StepEvent::Received(b"HELLO".to_vec())), StepAction::Fail(_)));
}

#[test]
fn responder_acknowledges_hello_and_refuses_other_bytes() {
    let mut s = HelloStep::new("proto", HandshakeRole::Responder);
    expect_read_exact(s.execute(StepEvent::Start(vec![])), 5, None);
    assert_eq!(expect_write(s.execute(StepEvent::Received(b"HELLO".to_vec()))), b"HELLO_ACK".to_vec());
    assert!(expect_done(s.execute(StepEvent::Written)).is_empty());

    let mut r = HelloStep::new("proto", HandshakeRole::Responder);
    r.execute(StepEvent::Start(vec![]));
    assert!(matches!(r.execute(StepEvent::Received(b"HOWDY".to_vec())), StepAction::Fail(_)));
}

#[test]
fn hello_failures() {
    let mut s = HelloStep::new("p", HandshakeRole::Initiator);
    expect_sleep(s.execute(StepEvent::Start(vec![])));
    s.execute(StepEvent::Slept);
    s.execute(StepEvent::Written);
    assert!(matches!(s.execute(StepEvent::Received(b"NOPE_NOPE".to_vec())), StepAction::Fail(_)));
    let mut u = HelloStep::new("p", HandshakeRole::Unknown);
    u.execute(StepEvent::Start(vec![]));
    assert!(matches!(u.execute(StepEvent::IoError("reset".to_string())), StepAction::Fail(_)));
}

#[test]
fn protocol_ids() {
    let mut s = HelloStep::new("first", HandshakeRole::Unknown);
    assert_eq!(s.get_protocol_id(), "first");
    s.set_protocol_id("second");
    assert_eq!(s.get_protocol_id(), "second");
    let mut c = CipherSuiteStep::new("suite");
    c.set_protocol_id("other");
    assert_eq!(c.get_protocol_id(), "other");
    let k = KyberExchangeStep::new(HandshakeRole::Initiator, TlsState::new());
    assert_eq!(k.get_protocol_id(), "TLS_HANDSHAKE");
    assert_eq!(FinishStep::new(HandshakeRole::Initiator).get_protocol_id(), "TLS_HANDSHAKE");
}

#[test]
fn handshake_happy_path() {
    // hello
    let mut hi = HelloStep::new("tls", HandshakeRole::Initiator);
    let mut hr = HelloStep::new("tls", HandshakeRole::Responder);
    expect_sleep(hi.execute(StepEvent::Start(vec![])));
    expect_read_exact(hr.execute(StepEvent::Start(vec![])), 5, None);
    let greeting = expect_write(hi.execute(StepEvent::Slept));
    expect_read_exact(hi.execute(StepEvent::Written), 9, None);
    let ack = expect_write(hr.execute(StepEvent::Received(greeting)));
    assert_eq!(ack, b"HELLO_ACK".to_vec());
    assert!(expect_done(hr.execute(StepEvent::Written)).is_empty());
    assert!(expect_done(hi.execute(StepEvent::Received(ack))).is_empty());

    // cipher suites
    let mut ci = CipherSuiteStep::new("tls");
    let mut cr = CipherSuiteStep::new("tls");
    let offer_i = expect_write(ci.execute(StepEvent::Start(b"AES256GCM".to_vec())));
    let offer_r = expect_write(cr.execute(StepEvent::Start(b"AES256GCM".to_vec())));
    assert!(matches!(ci.execute(StepEvent::Written), StepAction::Read { max: 1024 }));
    assert!(matches!(cr.execute(StepEvent::Written), StepAction::Read { max: 1024 }));
    assert_eq!(expect_done(ci.execute(StepEvent::Received(offer_r))), b"AES256GCM".to_vec());
    assert_eq!(expect_done(cr.execute(StepEvent::Received(offer_i))), b"AES256GCM".to_vec());

    // key exchange
    let mut ki = KyberExchangeStep::new(HandshakeRole::Initiator, TlsState::new());
    let mut kr = KyberExchangeStep::new(HandshakeRole::Responder, TlsState::new());
    let ek = expect_write(ki.execute(StepEvent::Start(vec![])));
    assert_eq!(ek.len(), 1568);
    expect_read_exact(kr.execute(StepEvent::Start(vec![])), 1568, None);
    let ct = expect_write(kr.execute(StepEvent::Received(ek)));
    assert_eq!(ct.len(), 1568);
    expect_read_exact(ki.execute(StepEvent::Written), 1568, None);
    assert!(expect_done(kr.execute(StepEvent::Written)).is_empty());
    assert!(expect_done(ki.execute(StepEvent::Received(ct))).is_empty());
    let key_i = ki.tls_state().session_key().clone();
    let key_r = kr.tls_state().session_key().clone();
    assert_eq!(key_i.len(), 32);
    assert_eq!(key_i, key_r);

    // finish
    let mut fi = FinishStep::new(HandshakeRole::Initiator);
    let mut fr = FinishStep::new(HandshakeRole::Responder);
    let done = expect_write(fi.execute(StepEvent::Start(b"suite".to_vec())));
    assert_eq!(done, b"HANDSHAKE_DONE".to_vec());
    expect_read_exact(fr.execute(StepEvent::Start(b"suite".to_vec())), 14, None);
    let ok = expect_write(fr.execute(StepEvent::Received(done)));
    assert_eq!(ok, b"OK".to_vec());
    expect_read_exact(fi.execute(StepEvent::Written), 2, None);
    assert_eq!(expect_done(fr.execute(StepEvent::Written)), b"suite".to_vec());
    assert_eq!(expect_done(fi.execute(StepEvent::Received(ok))), b"suite".to_vec());
}

#[test]
fn key_exchange_failures() {
    let mut u = KyberExchangeStep::new(HandshakeRole::Unknown, TlsState::new());
    assert!(matches!(u.execute(StepEvent::Start(vec![])), StepAction::Fail(_)));
    let mut r = KyberExchangeStep::new(HandshakeRole::Responder, TlsState::new());
    r.execute(StepEvent::Start(vec![]));
    assert!(matches!(r.execute(StepEvent::Received(vec![0; 100])), StepAction::Fail(_)));
    assert!(r.tls_state().session_key().is_empty());
    let mut i = KyberExchangeStep::new(HandshakeRole::Initiator, TlsState::new());
    i.execute(StepEvent::Start(vec![]));
    i.execute(StepEvent::Written);
    assert!(matches!(i.execute(StepEvent::Received(vec![0; 1567])), StepAction::Fail(_)));
    let mut f = FinishStep::new(HandshakeRole::Unknown);
    assert!(matches!(f.execute(StepEvent::Start(vec![])), StepAction::Fail(_)));
    let mut g = FinishStep::new(HandshakeRole::Responder);
    g.execute(StepEvent::Start(vec![]));
    assert!(matches!(g.execute(StepEvent::Received(b"HANDSHAKE_NOPE".to_vec())), StepAction::Fail(_)));
}
