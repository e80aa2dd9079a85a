//! Listening to a Mavinote account's notifications: the decisions of the
//! loop that keeps a socket to the server, pings it, reconnects with a
//! growing delay, and turns messages into refreshes.
use vstd::prelude::*;
use crate::note::Error;
use crate::note::accounts::mavinote::{self, DeviceMessage};

verus! {

/// Seconds of silence after which the socket is pinged.
pub const PING_INTERVAL: u64 = 30;

/// The first delay, in seconds, before reconnecting.
pub const FIRST_WAIT: u64 = 2;

/// The longest delay, in seconds, before reconnecting.
pub const LONGEST_WAIT: u64 = 32;

/// The delays the listener uses: 2, 4, 8, 16 and 32 seconds.
pub open spec fn valid_wait(w: u64) -> bool {
    w == 2 || w == 4 || w == 8 || w == 16 || w == 32
}

/// The delay after `w` when connecting fails again: doubled, at most 32.
pub open spec fn next_wait(w: u64) -> u64 {
    if w * 2 < LONGEST_WAIT { (w * 2) as u64 } else { LONGEST_WAIT }
}

/// The delay after `n` failed attempts in a row, starting afresh.
pub open spec fn wait_after_failures(n: nat) -> u64
    decreases n,
{
    if n == 0 {
        FIRST_WAIT
    } else {
        next_wait(wait_after_failures((n - 1) as nat))
    }
}

/// Reconnecting backs off 2, 4, 8, 16 seconds, then stays at 32 seconds.
pub proof fn lemma_backoff(n: nat)
    ensures
        valid_wait(wait_after_failures(n)),
        n == 0 ==> wait_after_failures(n) == 2,
        n == 1 ==> wait_after_failures(n) == 4,
        n == 2 ==> wait_after_failures(n) == 8,
        n == 3 ==> wait_after_failures(n) == 16,
        n >= 4 ==> wait_after_failures(n) == 32,
    decreases n,
{
    if n > 0 {
        lemma_backoff((n - 1) as nat);
    }
}

/// The reconnecting state of a notification listener.
pub struct Listener {
    wait: u64,
}

/// How an attempt to connect the socket ended.
pub enum ConnectOutcome {
    /// It failed; `receiver_closed` says whether nobody listens any more.
    Failed { receiver_closed: bool },
    Connected,
}

/// What the listener does after an attempt to connect.
#[derive(PartialEq, Eq, Structural)]
pub enum ConnectAction {
    /// Nobody listens: end the listener.
    Stop,
    /// Sleep this many seconds, then try again.
    RetryAfter(u64),
    /// Read frames from the socket.
    Listen,
}

impl Listener {
    #[verifier::type_invariant]
    spec fn delay_is_valid(&self) -> bool {
        valid_wait(self.wait)
    }

    /// The delay the listener will wait after the next failed attempt.
    pub closed spec fn delay(&self) -> u64 {
        self.wait
    }

    /// A listener that has not tried to connect yet.
    pub fn new() -> (l: Listener)
        ensures
            l.delay() == FIRST_WAIT,
    {
        Listener { wait: FIRST_WAIT }
    }

    /// The delay the listener will wait after the next failed attempt; it is
    /// always one of 2, 4, 8, 16 and 32 seconds.
    pub fn delay_secs(&self) -> (w: u64)
        ensures
            w == self.delay(),
            valid_wait(w),
    {
        proof {
            use_type_invariant(self);
        }
        self.wait
    }

    /// What to do after an attempt to connect: stop when nobody listens,
    /// sleep the current delay and double it (at most 32 seconds) when it
    /// failed, and start over from 2 seconds once connected.
    pub fn on_connect(&mut self, outcome: ConnectOutcome) -> (a: ConnectAction)
        ensures
            match outcome {
                ConnectOutcome::Failed { receiver_closed: true } => a == ConnectAction::Stop && final(self).delay() == old(self).delay(),
                ConnectOutcome::Failed { receiver_closed: false } => a == ConnectAction::RetryAfter(old(self).delay())
                    && final(self).delay() == next_wait(old(self).delay()),
                ConnectOutcome::Connected => a == ConnectAction::Listen && final(self).delay() == FIRST_WAIT,
            },
    {
        proof {
            use_type_invariant(&*self);
        }
        match outcome {
            ConnectOutcome::Failed { receiver_closed: true } => ConnectAction::Stop,
            ConnectOutcome::Failed { receiver_closed: false } => {
                let w = self.wait;
                self.wait = if w * 2 < LONGEST_WAIT { w * 2 } else { LONGEST_WAIT };
                ConnectAction::RetryAfter(w)
            },
            ConnectOutcome::Connected => {
                self.wait = FIRST_WAIT;
                ConnectAction::Listen
            },
        }
    }
}

/// Whether the socket is due a ping, `elapsed` seconds after the last one.
pub fn ping_due(elapsed: u64) -> (r: bool)
    ensures
        r == (elapsed > PING_INTERVAL),
{
    elapsed > PING_INTERVAL
}

/// What reading the socket gave.
pub enum Frame {
    /// Nothing came within the ping interval.
    TimedOut,
    /// Nobody listens any more.
    ReceiverClosed,
    /// The stream ended.
    Ended,
    /// Reading failed.
    Failed,
    /// A frame that is not text.
    NonText,
    /// A text frame, and the message it holds, if it is one.
    Text(Option<DeviceMessage>),
}

/// What the listener does with a frame.
#[derive(PartialEq, Eq, Structural)]
pub enum FrameAction {
    /// Read the next frame (pinging first if due).
    Continue,
    /// End the listener.
    Stop,
    /// Drop the socket and connect again.
    Reconnect,
    /// Act on the message, then read the next frame.
    Handle(DeviceMessage),
}

/// What the listener does with `frame`.
pub fn on_frame(frame: Frame) -> (a: FrameAction)
    ensures
        a == match frame {
            Frame::TimedOut | Frame::NonText | Frame::Text(None) => FrameAction::Continue,
            Frame::ReceiverClosed => FrameAction::Stop,
            Frame::Ended | Frame::Failed => FrameAction::Reconnect,
            Frame::Text(Some(m)) => FrameAction::Handle(m),
        },
{
    match frame {
        Frame::TimedOut | Frame::NonText | Frame::Text(None) => FrameAction::Continue,
        Frame::ReceiverClosed => FrameAction::Stop,
        Frame::Ended | Frame::Failed => FrameAction::Reconnect,
        Frame::Text(Some(m)) => FrameAction::Handle(m),
    }
}

/// What a message asks the device to refresh.
#[derive(PartialEq, Eq, Structural)]
pub enum Refresh {
    /// Answer the other devices' requests again.
    Requests,
    /// Pull every folder.
    Remote,
    /// Pull one folder.
    Folder(i32),
    /// Pull one note of a folder.
    Note { folder_id: i32, note_id: i32 },
    /// Nothing: the server's session ends.
    Nothing,
}

/// What `message` asks the device to refresh.
pub fn refresh_for(message: DeviceMessage) -> (r: Refresh)
    ensures
        r == match message {
            DeviceMessage::RefreshRequests => Refresh::Requests,
            DeviceMessage::RefreshRemote => Refresh::Remote,
            DeviceMessage::RefreshFolder(f) => Refresh::Folder(f),
            DeviceMessage::RefreshNote { folder_id, note_id } => Refresh::Note { folder_id, note_id },
            DeviceMessage::Timeout => Refresh::Nothing,
        },
{
    match message {
        DeviceMessage::RefreshRequests => Refresh::Requests,
        DeviceMessage::RefreshRemote => Refresh::Remote,
        DeviceMessage::RefreshFolder(f) => Refresh::Folder(f),
        DeviceMessage::RefreshNote { folder_id, note_id } => Refresh::Note { folder_id, note_id },
        DeviceMessage::Timeout => Refresh::Nothing,
    }
}

/// Whether a failed refresh calls for logging in again and retrying it once:
/// when the session expired.
pub fn retry_after_login(result: &Result<(), Error>) -> (r: bool)
    ensures
        r == (result matches Err(Error::Mavinote(mavinote::Error::Unauthorized(_)))),
{
    match result {
        Err(Error::Mavinote(mavinote::Error::Unauthorized(_))) => true,
        _ => false,
    }
}

} // verus!
