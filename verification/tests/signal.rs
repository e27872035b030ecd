use nightshift_core::signal::{ShutdownSignal, SignalKind};
use std::sync::mpsc;

#[test]
fn exit_code_sigint_is_130() {
    assert_eq!(SignalKind::Interrupt.exit_code(), 130);
}

#[test]
fn exit_code_sigterm_is_143() {
    assert_eq!(SignalKind::Terminate.exit_code(), 143);
}

#[test]
fn display_formatting() {
    assert_eq!(SignalKind::Interrupt.to_string(), "SIGINT");
    assert_eq!(SignalKind::Terminate.to_string(), "SIGTERM");
}

#[test]
fn try_recv_returns_none_when_no_signal() {
    let (_sender, receiver) = mpsc::channel::<SignalKind>();
    let shutdown = ShutdownSignal::from_receiver(receiver);
    assert!(shutdown.try_recv().is_none());
}

#[test]
fn try_recv_returns_signal_when_sent() {
    let (sender, receiver) = mpsc::channel();
    let shutdown = ShutdownSignal::from_receiver(receiver);
    sender.send(SignalKind::Terminate).unwrap();
    assert_eq!(shutdown.try_recv(), Some(SignalKind::Terminate));
}

#[test]
fn recv_returns_signal_when_sent() {
    let (sender, receiver) = mpsc::channel();
    let shutdown = ShutdownSignal::from_receiver(receiver);
    sender.send(SignalKind::Interrupt).unwrap();
    assert_eq!(shutdown.recv(), Some(SignalKind::Interrupt));
}

#[test]
fn signal_kind_equality() {
    assert_eq!(SignalKind::Interrupt, SignalKind::Interrupt);
    assert_ne!(SignalKind::Interrupt, SignalKind::Terminate);
}

#[test]
fn recv_returns_none_when_every_sender_is_gone() {
    let (sender, receiver) = mpsc::channel::<SignalKind>();
    let shutdown = ShutdownSignal::from_receiver(receiver);
    drop(sender);
    assert_eq!(shutdown.recv(), None);
}
