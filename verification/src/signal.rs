//! Shutdown notifications for headless mode.
//!
//! The process-wide SIGINT / SIGTERM handlers live with the program; they
//! forward the first signal through a channel whose receiving end is wrapped
//! here, so the engine can poll or block for a shutdown request.
use std::sync::mpsc::Receiver;
use vstd::prelude::*;

verus! {

/// The kind of signal that was received.
#[derive(Debug, Clone, Copy, PartialEq, Eq, Structural)]
pub enum SignalKind {
    /// SIGINT (Ctrl-C).
    Interrupt,
    /// SIGTERM.
    Terminate,
}

/// The conventional name of a signal.
pub open spec fn signal_name(kind: SignalKind) -> Seq<char> {
    match kind {
        SignalKind::Interrupt => "SIGINT"@,
        SignalKind::Terminate => "SIGTERM"@,
    }
}

impl SignalKind {
    /// Standard Unix exit code for this signal (128 + signal number).
    pub fn exit_code(&self) -> (code: i32)
        ensures
            code == match *self {
                SignalKind::Interrupt => 130i32,
                SignalKind::Terminate => 143i32,
            },
    {
        match self {
            SignalKind::Interrupt => 128 + 2,
            SignalKind::Terminate => 128 + 15,
        }
    }

    /// `SIGINT` or `SIGTERM`.
    pub fn to_string(&self) -> (s: String)
        ensures
            s@ == signal_name(*self),
    {
        match self {
            SignalKind::Interrupt => String::from_str("SIGINT"),
            SignalKind::Terminate => String::from_str("SIGTERM"),
        }
    }
}

#[verifier::external_type_specification]
#[verifier::external_body]
#[verifier::reject_recursive_types(T)]
pub struct ExReceiver<T>(Receiver<T>);

/// The receiving end of the shutdown channel.
pub struct ShutdownSignal {
    receiver: Receiver<SignalKind>,
}

impl ShutdownSignal {
    /// The receiving end of the channel this signal reads.
    pub closed spec fn channel(&self) -> Receiver<SignalKind> {
        self.receiver
    }

    /// Wraps the receiving end of a signal channel.
    pub fn from_receiver(receiver: Receiver<SignalKind>) -> (s: Self)
        ensures
            s.channel() == receiver,
    {
        ShutdownSignal { receiver }
    }

    /// Non-blocking check (`Receiver::try_recv`): `Some(kind)` when a signal
    /// has been received.
    ///
    /// Trusted, and nothing is promised of the result: it depends on what the
    /// signal monitor has sent so far.
    #[verifier::external_body]
    pub fn try_recv(&self) -> Option<SignalKind> {
        self.receiver.try_recv().ok()
    }

    /// Blocks until a signal is received (`Receiver::recv`): `Some(kind)`
    /// for the next signal sent, `None` once every sender has been dropped
    /// and nothing is left to receive.
    ///
    /// Trusted, and nothing is promised of which it returns: that depends on
    /// what the signal monitor sends.  It does not return while a sender is
    /// alive and no signal has been sent.
    #[verifier::external_body]
    pub fn recv(&self) -> Option<SignalKind> {
        self.receiver.recv().ok()
    }
}

} // verus!
