use bidasker_writer::warmup::{Warmup, WarmupAction, WarmupEvent};

fn streams(n: usize) -> Vec<String> {
    (0..n).map(|i| format!("s{}@bookTicker", i)).collect()
}

fn command(action: WarmupAction) -> (Vec<String>, u64) {
    match action {
        WarmupAction::Send(c) => {
            assert_eq!(c.method, "SUBSCRIBE");
            (c.params, c.id)
        }
        other => panic!("not a command: {:?}", other),
    }
}

fn failure(action: WarmupAction) -> String {
    match action {
        WarmupAction::Fail(e) => e.text(),
        other => panic!("not a failure: {:?}", other),
    }
}

fn step(w: &mut Warmup, event: WarmupEvent) -> WarmupAction {
    assert!(w.expects(&event));
    w.step(event, 42)
}

fn draining() -> Warmup {
    let mut w = Warmup::new(streams(1));
    step(&mut w, WarmupEvent::Connected);
    step(&mut w, WarmupEvent::Sent);
    w
}

fn probing() -> Warmup {
    let mut w = Warmup::new(streams(0));
    assert!(matches!(step(&mut w, WarmupEvent::Connected), WarmupAction::Probe));
    w
}

#[test]
fn smooth_warmup() {
    let all = streams(70);
    let mut w = Warmup::new(all.clone());
    assert_eq!(command(step(&mut w, WarmupEvent::Connected)), (all[..50].to_vec(), 42));
    assert!(matches!(step(&mut w, WarmupEvent::Sent), WarmupAction::Drain));
    assert!(matches!(step(&mut w, WarmupEvent::Received), WarmupAction::Drain));
    assert!(matches!(step(&mut w, WarmupEvent::Received), WarmupAction::Drain));
    assert_eq!(command(step(&mut w, WarmupEvent::PauseOver)), (all[50..].to_vec(), 42));
    assert!(matches!(step(&mut w, WarmupEvent::Sent), WarmupAction::Drain));
    assert!(matches!(step(&mut w, WarmupEvent::PauseOver), WarmupAction::Probe));
    assert!(matches!(step(&mut w, WarmupEvent::Received), WarmupAction::Ready));
    assert!(!w.expects(&WarmupEvent::Received));
}

#[test]
fn nothing_to_subscribe_to() {
    let mut w = probing();
    assert!(matches!(step(&mut w, WarmupEvent::Received), WarmupAction::Ready));
}

#[test]
fn failures() {
    let mut w = Warmup::new(streams(1));
    assert_eq!(failure(step(&mut w, WarmupEvent::ConnectFailed("DNS: x".to_string()))), "DNS: x");

    let mut w = Warmup::new(streams(1));
    step(&mut w, WarmupEvent::Connected);
    assert_eq!(
        failure(step(&mut w, WarmupEvent::SendFailed("x".to_string()))),
        "Ошибка отправки SUBSCRIBE: x"
    );

    assert_eq!(
        failure(step(&mut draining(), WarmupEvent::ReadFailed("x".to_string()))),
        "Ошибка при чтении во время прогрева: x"
    );
    assert_eq!(
        failure(step(&mut draining(), WarmupEvent::Closed)),
        "Стрим закрыт сервером во время прогрева"
    );
    assert_eq!(
        failure(step(&mut probing(), WarmupEvent::ReadFailed("x".to_string()))),
        "Ошибка WS перед передачей: x"
    );
    assert_eq!(
        failure(step(&mut probing(), WarmupEvent::Closed)),
        "Стрим закрылся перед передачей"
    );
    assert_eq!(
        failure(step(&mut probing(), WarmupEvent::TimedOut)),
        "Таймаут: биржа не прислала данные"
    );
}

#[test]
fn what_can_happen_when() {
    let w = Warmup::new(streams(1));
    assert!(w.expects(&WarmupEvent::Connected));
    assert!(!w.expects(&WarmupEvent::Sent));
    assert!(!w.expects(&WarmupEvent::Received));
    assert!(draining().expects(&WarmupEvent::PauseOver));
    assert!(!draining().expects(&WarmupEvent::TimedOut));
    assert!(probing().expects(&WarmupEvent::TimedOut));
    assert!(!probing().expects(&WarmupEvent::PauseOver));
}

#[test]
fn waits_of_a_warmup() {
    let mut w = Warmup::new(streams(1));
    assert_eq!(step(&mut w, WarmupEvent::Connected).wait_ms(), None);
    assert_eq!(step(&mut w, WarmupEvent::Sent).wait_ms(), Some(300));
    assert_eq!(step(&mut w, WarmupEvent::Received).wait_ms(), Some(300));
    assert_eq!(step(&mut w, WarmupEvent::PauseOver).wait_ms(), Some(3000));
    assert_eq!(step(&mut w, WarmupEvent::Received).wait_ms(), None);
    let mut w = probing();
    assert_eq!(step(&mut w, WarmupEvent::TimedOut).wait_ms(), None);
}
