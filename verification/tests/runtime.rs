use reax::auth::requests::{Login, SignUp};
use reax::base::observable_map::ObservableMap;
use reax::base::State;
use reax::note::accounts::mavinote::{
    check_status, is_missing, message_error, verification_outcome, DeviceMessage, Error as MavinoteError, HttpError,
    HttpFailure, StatusCheck, VerificationFrame,
};
use reax::note::notifications::{on_frame, ping_due, refresh_for, retry_after_login, ConnectAction, ConnectOutcome, Frame, FrameAction, Listener, Refresh};
use reax::note::{crypto, Error, StorageError};
use reax::notify::{Connection, StartAction, StopAction};
use reax::text::{is_whitespace, joined, same_text, trim};
use reax::util::insert_hit_existing_key;

#[test]
fn reconnect_delay_doubles_up_to_thirty_two_seconds() {
    let mut l = Listener::new();
    let mut waits = Vec::new();
    for _ in 0..6 {
        match l.on_connect(ConnectOutcome::Failed { receiver_closed: false }) {
            ConnectAction::RetryAfter(w) => waits.push(w),
            _ => panic!("expected a retry"),
        }
    }
    assert_eq!(waits, vec![2, 4, 8, 16, 32, 32]);
    assert!(l.on_connect(ConnectOutcome::Connected) == ConnectAction::Listen);
    assert_eq!(l.delay_secs(), 2);
}

#[test]
fn listener_stops_when_nobody_listens() {
    let mut l = Listener::new();
    assert!(l.on_connect(ConnectOutcome::Failed { receiver_closed: true }) == ConnectAction::Stop);
    assert_eq!(l.delay_secs(), 2);
}

#[test]
fn pings_after_thirty_seconds() {
    assert!(!ping_due(30));
    assert!(ping_due(31));
    assert!(!ping_due(0));
}

#[test]
fn frames_lead_to_actions() {
    assert!(on_frame(Frame::TimedOut) == FrameAction::Continue);
    assert!(on_frame(Frame::NonText) == FrameAction::Continue);
    assert!(on_frame(Frame::Text(None)) == FrameAction::Continue);
    assert!(on_frame(Frame::ReceiverClosed) == FrameAction::Stop);
    assert!(on_frame(Frame::Ended) == FrameAction::Reconnect);
    assert!(on_frame(Frame::Failed) == FrameAction::Reconnect);
    assert!(on_frame(Frame::Text(Some(DeviceMessage::RefreshRemote))) == FrameAction::Handle(DeviceMessage::RefreshRemote));
}

#[test]
fn messages_map_to_refreshes() {
    assert!(refresh_for(DeviceMessage::RefreshRequests) == Refresh::Requests);
    assert!(refresh_for(DeviceMessage::RefreshRemote) == Refresh::Remote);
    assert!(refresh_for(DeviceMessage::RefreshFolder(3)) == Refresh::Folder(3));
    assert!(refresh_for(DeviceMessage::RefreshNote { folder_id: 3, note_id: 4 }) == Refresh::Note { folder_id: 3, note_id: 4 });
    assert!(refresh_for(DeviceMessage::Timeout) == Refresh::Nothing);
}

#[test]
fn only_expired_sessions_are_retried() {
    assert!(retry_after_login(&Err(Error::Mavinote(MavinoteError::Unauthorized(None)))));
    assert!(!retry_after_login(&Err(Error::Mavinote(MavinoteError::Unknown))));
    assert!(!retry_after_login(&Err(Error::Crypto(crypto::Error::Decrypt))));
    assert!(!retry_after_login(&Ok(())));
}

#[test]
fn connection_runs_at_most_once() {
    let mut c = Connection::new("ws://server/notify".to_string());
    assert!(c.stop() == StopAction::NotRunning);
    match c.start() {
        StartAction::Spawn(url) => assert_eq!(url, "ws://server/notify"),
        StartAction::AlreadyRunning => panic!("should spawn"),
    }
    assert!(matches!(c.start(), StartAction::AlreadyRunning));
    assert!(c.stop() == StopAction::Abort);
    assert!(c.stop() == StopAction::NotRunning);
}

#[test]
fn observable_map_tracks_subscribers() {
    let mut m: ObservableMap<State<Vec<i32>, ()>> = ObservableMap::new();
    assert!(!m.contains_key(1));
    assert!(m.subscribe(1).is_none());
    assert!(!m.insert(1, State::Loading));
    assert!(m.insert(1, State::Loading));
    assert!(m.contains_key(1));
    let rx = m.subscribe(1).unwrap();
    m.update(1, State::Loaded(vec![4]));
    assert!(matches!(*rx.borrow(), State::Loaded(ref v) if v == &vec![4]));
    m.update_modify(1, |s| reax::note::storage::push_loaded(s, 5));
    assert!(matches!(*rx.borrow(), State::Loaded(ref v) if v == &vec![4, 5]));
    let rx2 = m.subscribe(1).unwrap();
    m.unsubscribe(1);
    assert!(m.contains_key(1));
    drop(rx2);
    m.unsubscribe(1);
    assert!(!m.contains_key(1));
    drop(rx);
}

#[test]
fn remove_if_last_needs_a_single_receiver() {
    let mut m: ObservableMap<i32> = ObservableMap::new();
    m.insert(2, 0);
    m.remove_if_last(2, 2);
    assert!(m.contains_key(2));
    m.remove_if_last(2, 1);
    assert!(!m.contains_key(2));
    m.update(2, 9);
}

#[test]
fn http_failures_become_errors() {
    let f = |status, is_connect, is_decode| MavinoteError::from(HttpFailure { status, is_connect, is_decode });
    assert!(matches!(f(Some(401), true, true), MavinoteError::Unauthorized(None)));
    assert!(matches!(f(Some(500), true, false), MavinoteError::NoConnection));
    assert!(matches!(f(None, false, true), MavinoteError::UnexpectedResponse));
    assert!(matches!(f(Some(500), false, false), MavinoteError::Unknown));
}

#[test]
fn statuses_are_checked() {
    assert!(matches!(check_status(Some(3), 200), StatusCheck::Success));
    assert!(matches!(check_status(Some(3), 204), StatusCheck::Success));
    assert!(matches!(check_status(Some(3), 401), StatusCheck::Failed(MavinoteError::Unauthorized(Some(3)))));
    assert!(matches!(check_status(None, 401), StatusCheck::Failed(MavinoteError::Unauthorized(None))));
    assert!(matches!(check_status(Some(3), 404), StatusCheck::ReadMessage));
    assert!(matches!(message_error(HttpError { error: "device_deleted".into() }), MavinoteError::Message(ref m) if m == "device_deleted"));
    assert!(is_missing(404));
    assert!(!is_missing(200));
}

#[test]
fn verification_waits_for_acceptance() {
    assert!(verification_outcome(Some(VerificationFrame::Text("accepted".into()))).is_ok());
    assert!(matches!(verification_outcome(Some(VerificationFrame::Text("timeout".into()))), Err(MavinoteError::Message(ref m)) if m == "ws_timeout"));
    assert!(matches!(verification_outcome(Some(VerificationFrame::Text("other".into()))), Err(MavinoteError::Message(ref m)) if m == "ws_failed"));
    assert!(matches!(verification_outcome(Some(VerificationFrame::NonText)), Err(MavinoteError::Message(ref m)) if m == "ws_failed"));
    assert!(matches!(verification_outcome(Some(VerificationFrame::Closed)), Err(MavinoteError::Message(ref m)) if m == "ws_failed"));
    assert!(matches!(verification_outcome(Some(VerificationFrame::ReceiveError)), Err(MavinoteError::Message(ref m)) if m == "ws_failed"));
    assert!(matches!(verification_outcome(None), Err(MavinoteError::Message(ref m)) if m == "ws_failed"));
}

#[test]
fn state_follows_results() {
    assert!(matches!(State::<i32, ()>::from(Ok(3)), State::Loaded(3)));
    assert!(matches!(State::<i32, &str>::from(Err("e")), State::Failed("e")));
    assert!(matches!(State::<i32, ()>::default(), State::Initial));
}

#[test]
fn errors_convert_into_library_errors() {
    assert!(matches!(Error::from(MavinoteError::NoConnection), Error::Mavinote(MavinoteError::NoConnection)));
    assert!(matches!(Error::from(StorageError::AccountNotFound), Error::Storage(StorageError::AccountNotFound)));
    assert!(matches!(Error::from(crypto::Error::Encrypt), Error::Crypto(crypto::Error::Encrypt)));
}

#[test]
fn duplicate_key_code_is_recognised() {
    assert!(insert_hit_existing_key(Some("2067")));
    assert!(!insert_hit_existing_key(Some("1555")));
    assert!(!insert_hit_existing_key(None));
}

#[test]
fn login_input_is_trimmed() {
    let l = Login::from_input("  me@example.com\n", " pass ");
    assert_eq!((l.email.as_str(), l.password.as_str()), ("me@example.com", "pass"));
    let s = SignUp::from_input(" Me ", "me@example.com ", "\tpass");
    assert_eq!((s.name.as_str(), s.email.as_str(), s.password.as_str()), ("Me", "me@example.com", "pass"));
}

#[test]
fn text_helpers() {
    assert_eq!(trim("\u{A0} a b \n"), "a b");
    assert_eq!(trim(""), "");
    assert!(same_text("abc", "abc"));
    assert!(!same_text("abc", "abd"));
    assert!(!same_text("abc", "ab"));
    assert_eq!(joined("ab", "çd"), "abçd");
    assert_eq!(trim("  Hello\nWorld  \u{3000}"), "Hello\nWorld");
}

#[test]
fn whitespace_table_matches_std() {
    for c in (0u32..=0x10FFFF).filter_map(char::from_u32) {
        assert_eq!(is_whitespace(c), c.is_whitespace(), "{:?}", c);
    }
}

#[test]
fn inserted_values_reach_subscribers() {
    let mut m: ObservableMap<i32> = ObservableMap::new();
    m.insert(7, 1);
    let rx = m.subscribe(7).unwrap();
    assert_eq!(*rx.borrow(), 1);
    m.insert(7, 2);
    assert_eq!(*m.subscribe(7).unwrap().borrow(), 2);
    assert_eq!(*rx.borrow(), 1);
    m.update(8, 5);
    assert!(!m.contains_key(8));
}
