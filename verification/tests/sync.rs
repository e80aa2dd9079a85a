use base64ct::{Base64, Encoding};
use reax::note::accounts::mavinote::requests::{CreateRequests, RespondRequests};
use reax::note::accounts::mavinote::responses::{self, Commit, CreatedFolder, CreatedNote, DeviceFolder, DeviceNote, FolderRequest, NoteRequest};
use reax::note::crypto::DeviceCipher;
use reax::note::models::{self, Account, AccountKind, Folder, LocalId, Note, RemoteId, State};
use reax::note::sync::{
    adopt_remote_folder, answer_folder_request, answer_note_request, created_folder_id, created_note_fields,
    device_changes, find_cipher, folder_request_pairs, group_requests, has_requests, listed_device_ciphers,
    mavinote_account_ids, merge_requests, note_is_current, note_request_pairs, plan_local_folder, plan_local_note,
    plan_remote_note, pulled_folder_requests, remote_folder_deleted, seal_folder_name, seal_note, stored_device_ciphers, sync_failure,
    FolderAdoption, LocalFolderPlan, LocalNotePlan, RemoteNotePlan, SyncFailure,
};
use reax::note::{Error, StorageError};
use reax::note::accounts::mavinote::Error as MavinoteError;
use x25519_dalek::{PublicKey, StaticSecret};

const ME: [u8; 32] = [1u8; 32];

fn public_b64(secret: [u8; 32]) -> String {
    Base64::encode_string(PublicKey::from(&StaticSecret::from(secret)).as_bytes())
}

fn stored(id: i32, secret: u8) -> models::Device {
    models::Device { id, account_id: 1, pubkey: public_b64([secret; 32]), created_at: 0 }
}

fn listed(id: i32, secret: u8) -> responses::Device {
    responses::Device { id, pubkey: public_b64([secret; 32]), created_at: 0 }
}

/// The channel from `ME` to the device with secret `secret`.
fn cipher_to(id: i32, secret: u8) -> DeviceCipher {
    DeviceCipher::try_from_key(id, &ME, &public_b64([secret; 32])).unwrap()
}

/// The channel from the device with secret `secret` back to `ME`.
fn cipher_from(secret: u8) -> DeviceCipher {
    DeviceCipher::try_from_key(0, &[secret; 32], &public_b64(ME)).unwrap()
}

fn local_note(state: State, remote_id: Option<i32>, commit: i32, text: &str) -> Note {
    Note { id: 7, folder_id: 3, remote_id, commit, name: "n".into(), text: text.into(), state }
}

#[test]
fn device_changes_compare_id_and_key() {
    let old = vec![stored(1, 10), stored(2, 20), stored(3, 30)];
    let new = vec![listed(1, 10), listed(2, 21), listed(4, 40)];
    let (stale, fresh) = device_changes(&old, &new);
    assert_eq!(stale, vec![2, 3]);
    assert_eq!(fresh.iter().map(|d| d.id).collect::<Vec<_>>(), vec![2, 4]);
    assert_eq!(fresh[0].pubkey, public_b64([21u8; 32]));
}

#[test]
fn no_device_changes_when_lists_agree() {
    let (stale, fresh) = device_changes(&[stored(1, 10)], &[listed(1, 10)]);
    assert!(stale.is_empty() && fresh.is_empty());
}

#[test]
fn ciphers_follow_the_device_order() {
    let cs = listed_device_ciphers(&ME, &[listed(5, 50), listed(6, 60)]).unwrap();
    assert_eq!(cs.iter().map(|c| c.device_id).collect::<Vec<_>>(), vec![5, 6]);
    let cs = stored_device_ciphers(&ME, &[stored(8, 80)]).unwrap();
    assert_eq!(cs[0].device_id, 8);
    let bad = models::Device { id: 9, account_id: 1, pubkey: "AAAA".into(), created_at: 0 };
    assert!(stored_device_ciphers(&ME, &[stored(8, 80), bad]).is_err());
}

#[test]
fn find_cipher_gives_first_match() {
    let cs = vec![cipher_to(5, 50), cipher_to(6, 60), cipher_to(5, 51)];
    assert_eq!(find_cipher(&cs, 5), Some(0));
    assert_eq!(find_cipher(&cs, 6), Some(1));
    assert_eq!(find_cipher(&cs, 7), None);
}

#[test]
fn folder_without_device_copy_asks_for_copies() {
    let remote = responses::Folder { id: 12, state: State::Clean, device_folder: None };
    let commits = vec![
        Commit { note_id: 100, commit: 1, state: State::Clean },
        Commit { note_id: 101, commit: 2, state: State::Clean },
    ];
    match adopt_remote_folder(&remote, &commits, &[]) {
        Ok(FolderAdoption::AskForCopies(reqs)) => {
            assert_eq!(reqs.folder_ids, vec![12]);
            assert_eq!(reqs.note_ids, vec![100, 101]);
        }
        _ => panic!("expected a request for copies"),
    }
}

#[test]
fn folder_from_unknown_device_is_left() {
    let remote = responses::Folder { id: 12, state: State::Clean, device_folder: Some(DeviceFolder { sender_device_id: 9, name: "x".into() }) };
    assert!(matches!(adopt_remote_folder(&remote, &[], &[cipher_to(5, 50)]), Ok(FolderAdoption::UnknownSender)));
}

#[test]
fn folder_from_known_device_is_created_with_opened_name() {
    let sealed = cipher_from(50).encrypt("Recipes").unwrap();
    let remote = responses::Folder { id: 12, state: State::Clean, device_folder: Some(DeviceFolder { sender_device_id: 5, name: sealed }) };
    match adopt_remote_folder(&remote, &[], &[cipher_to(5, 50)]) {
        Ok(FolderAdoption::Create(name)) => assert_eq!(name, "Recipes"),
        _ => panic!("expected a new folder"),
    }
    let garbled = responses::Folder { id: 12, state: State::Clean, device_folder: Some(DeviceFolder { sender_device_id: 5, name: "AAAA".into() }) };
    assert!(matches!(adopt_remote_folder(&garbled, &[], &[cipher_to(5, 50)]), Err(Error::Crypto(_))));
}

#[test]
fn deleted_remote_folder_is_detected() {
    assert!(remote_folder_deleted(&responses::Folder { id: 1, state: State::Deleted, device_folder: None }));
    assert!(!remote_folder_deleted(&responses::Folder { id: 1, state: State::Modified, device_folder: None }));
}

#[test]
fn only_newer_commits_are_pulled() {
    assert!(!note_is_current(None, 3));
    assert!(note_is_current(Some(&local_note(State::Clean, Some(1), 3, "t")), 3));
    assert!(!note_is_current(Some(&local_note(State::Clean, Some(1), 2, "t")), 3));
    assert!(note_is_current(Some(&local_note(State::Deleted, Some(1), 0, "t")), 3));
}

fn remote_note_from(secret: u8, name: &str, text: &str, commit: i32) -> responses::Note {
    let c = cipher_from(secret);
    responses::Note {
        id: 40,
        commit,
        state: State::Clean,
        device_note: Some(DeviceNote { sender_device_id: 5, name: c.encrypt(name).unwrap(), text: c.encrypt(text).unwrap() }),
    }
}

#[test]
fn pulled_note_overwrites_clean_copy() {
    let remote = remote_note_from(50, "Title", "Remote text", 9);
    let local = local_note(State::Clean, Some(40), 3, "Old text");
    match plan_remote_note(Some(&local), Some(&remote), &[cipher_to(5, 50)]) {
        Ok(RemoteNotePlan::Update { local_id, name, text, commit, state }) => {
            assert_eq!(local_id, LocalId(7));
            assert_eq!(name, "Title");
            assert_eq!(text, "Remote text");
            assert_eq!(commit, 9);
            assert_eq!(state, State::Clean);
        }
        _ => panic!("expected an update"),
    }
}

#[test]
fn pulled_note_keeps_local_edits_after_marker() {
    let remote = remote_note_from(50, "Title", "Remote text", 9);
    let local = local_note(State::Modified, Some(40), 3, "Local text");
    match plan_remote_note(Some(&local), Some(&remote), &[cipher_to(5, 50)]) {
        Ok(RemoteNotePlan::Update { text, state, .. }) => {
            assert_eq!(text, "Remote text\n___CONFLICT_RESOLVING___\nLocal text");
            assert_eq!(state, State::Modified);
        }
        _ => panic!("expected an update"),
    }
}

#[test]
fn pulled_note_without_local_copy_is_created() {
    let remote = remote_note_from(50, "Title", "Body", 2);
    match plan_remote_note(None, Some(&remote), &[cipher_to(5, 50)]) {
        Ok(RemoteNotePlan::Create { name, text, commit }) => assert_eq!((name.as_str(), text.as_str(), commit), ("Title", "Body", 2)),
        _ => panic!("expected a new note"),
    }
}

#[test]
fn pulled_note_edge_cases() {
    assert!(matches!(plan_remote_note(None, None, &[]), Ok(RemoteNotePlan::Skip)));
    let bare = responses::Note { id: 40, commit: 1, state: State::Clean, device_note: None };
    assert!(matches!(plan_remote_note(None, Some(&bare), &[]), Ok(RemoteNotePlan::AskForCopy)));
    let remote = remote_note_from(50, "Title", "Body", 2);
    assert!(matches!(plan_remote_note(None, Some(&remote), &[cipher_to(6, 60)]), Ok(RemoteNotePlan::Skip)));
    assert!(matches!(plan_remote_note(None, Some(&remote), &[cipher_to(5, 51)]), Err(Error::Crypto(_))));
}

#[test]
fn local_folder_plans() {
    let mut f = Folder { id: 3, account_id: 1, remote_id: None, name: "f".into(), state: State::Deleted };
    assert!(matches!(plan_local_folder(&f), Err(Error::Unreachable(m)) if m == "Deleted folder without a remote id cannot exist"));
    f.remote_id = Some(30);
    assert!(matches!(plan_local_folder(&f), Ok(LocalFolderPlan::DeleteRemote(RemoteId(30)))));
    f.state = State::Clean;
    assert!(matches!(plan_local_folder(&f), Ok(LocalFolderPlan::Existing(RemoteId(30)))));
    f.remote_id = None;
    assert!(matches!(plan_local_folder(&f), Ok(LocalFolderPlan::CreateRemote)));
}

#[test]
fn local_note_plans() {
    assert!(matches!(plan_local_note(&local_note(State::Deleted, None, 0, "t")), Err(Error::Unreachable(m)) if m == "Deleted note without a remote id cannot exist"));
    assert!(matches!(plan_local_note(&local_note(State::Deleted, Some(4), 0, "t")), Ok(LocalNotePlan::DeleteRemote(RemoteId(4)))));
    assert!(matches!(plan_local_note(&local_note(State::Clean, Some(4), 2, "t")), Ok(LocalNotePlan::Skip)));
    assert!(matches!(plan_local_note(&local_note(State::Modified, Some(4), 2, "t")), Ok(LocalNotePlan::Update(RemoteId(4), 2))));
    assert!(matches!(plan_local_note(&local_note(State::Modified, None, 0, "t")), Ok(LocalNotePlan::Create)));
    assert!(matches!(plan_local_note(&local_note(State::Clean, None, 0, "t")), Ok(LocalNotePlan::Create)));
}

#[test]
fn pushed_names_and_texts_open_at_each_device() {
    let cs = vec![cipher_to(5, 50), cipher_to(6, 60)];
    let folders = seal_folder_name(&cs, "Inbox").unwrap();
    assert_eq!(folders.iter().map(|r| r.device_id).collect::<Vec<_>>(), vec![5, 6]);
    assert_eq!(cipher_from(60).decrypt(&folders[1].name).unwrap(), "Inbox");
    let notes = seal_note(&cs, "Name", "Text").unwrap();
    assert_eq!(cipher_from(50).decrypt(&notes[0].name).unwrap(), "Name");
    assert_eq!(cipher_from(50).decrypt(&notes[0].text).unwrap(), "Text");
    assert!(seal_folder_name(&[], "x").unwrap().is_empty());
}

#[test]
fn requests_group_by_item_and_drop_unknown_devices() {
    let cs = vec![cipher_to(5, 50), cipher_to(6, 60)];
    let pairs = vec![(10, 5), (11, 6), (10, 6), (10, 5), (12, 9)];
    let groups = group_requests(&cs, &pairs);
    assert_eq!(groups.len(), 2);
    assert_eq!(groups[0].item_id, 10);
    assert_eq!(groups[0].ciphers, vec![0, 1]);
    assert_eq!(groups[1].item_id, 11);
    assert_eq!(groups[1].ciphers, vec![1]);
}

#[test]
fn request_pairs_keep_order() {
    let fr = vec![FolderRequest { folder_id: 1, device_id: 2 }, FolderRequest { folder_id: 3, device_id: 4 }];
    assert_eq!(folder_request_pairs(&fr), vec![(1, 2), (3, 4)]);
    let nr = vec![NoteRequest { note_id: 5, device_id: 6 }];
    assert_eq!(note_request_pairs(&nr), vec![(5, 6)]);
}

#[test]
fn each_device_gets_one_answer_with_its_copies() {
    let cs = vec![cipher_to(5, 50), cipher_to(6, 60)];
    let mut answers: Vec<RespondRequests> = Vec::new();
    answer_folder_request(&mut answers, &cs, 10, &[0, 1], "Work").unwrap();
    answer_folder_request(&mut answers, &cs, 11, &[1], "Home").unwrap();
    answer_note_request(&mut answers, &cs, 20, &[0], "N", "T").unwrap();
    assert_eq!(answers.len(), 2);
    assert_eq!(answers[0].device_id, 5);
    assert_eq!(answers[0].folders.len(), 1);
    assert_eq!(answers[0].notes.len(), 1);
    assert_eq!(answers[1].device_id, 6);
    assert_eq!(answers[1].folders.iter().map(|f| f.folder_id).collect::<Vec<_>>(), vec![10, 11]);
    assert_eq!(cipher_from(60).decrypt(&answers[1].folders[1].name).unwrap(), "Home");
    assert_eq!(cipher_from(50).decrypt(&answers[0].notes[0].text).unwrap(), "T");
    assert_eq!(answers[0].notes[0].note_id, 20);
}

#[test]
fn pulled_folder_asks_for_notes_without_copies() {
    let commits = vec![
        Commit { note_id: 100, commit: 1, state: State::Clean },
        Commit { note_id: 101, commit: 2, state: State::Clean },
        Commit { note_id: 102, commit: 3, state: State::Clean },
    ];
    let reqs = pulled_folder_requests(&commits, &[true, false, true]);
    assert!(reqs.folder_ids.is_empty());
    assert_eq!(reqs.note_ids, vec![100, 102]);
    assert!(pulled_folder_requests(&commits, &[false, false, false]).note_ids.is_empty());
}

#[test]
fn requests_merge_and_report_emptiness() {
    let mut acc = CreateRequests { folder_ids: vec![1], note_ids: vec![] };
    assert!(has_requests(&acc));
    merge_requests(&mut acc, CreateRequests { folder_ids: vec![2], note_ids: vec![3] });
    assert_eq!(acc.folder_ids, vec![1, 2]);
    assert_eq!(acc.note_ids, vec![3]);
    assert!(!has_requests(&CreateRequests { folder_ids: vec![], note_ids: vec![] }));
}

#[test]
fn only_mavinote_accounts_are_synced() {
    let accounts = vec![
        Account { id: 1, name: "local".into(), kind: AccountKind::Local },
        Account { id: 2, name: "a".into(), kind: AccountKind::Mavinote },
        Account { id: 3, name: "b".into(), kind: AccountKind::Mavinote },
    ];
    assert_eq!(mavinote_account_ids(&accounts), vec![2, 3]);
}

#[test]
fn expired_sessions_lead_to_relogin() {
    assert!(sync_failure(&Error::Mavinote(MavinoteError::Unauthorized(Some(1)))) == SyncFailure::Relogin);
    assert!(sync_failure(&Error::Mavinote(MavinoteError::NoConnection)) == SyncFailure::Report);
    assert!(sync_failure(&Error::Storage(StorageError::FolderNotFound)) == SyncFailure::Report);
    assert!(sync_failure(&Error::Mavinote(MavinoteError::DeviceDeleted(3))) == SyncFailure::Stop);
}

#[test]
fn created_items_give_remote_ids() {
    assert_eq!(created_folder_id(Some(&CreatedFolder { id: 4 })), Some(RemoteId(4)));
    assert_eq!(created_folder_id(None), None);
    assert_eq!(created_note_fields(Some(&CreatedNote { id: 5, commit: 2 })), (Some(RemoteId(5)), 2));
    assert_eq!(created_note_fields(None), (None, 0));
}

#[test]
fn responses_expose_their_ids() {
    assert_eq!(CreatedFolder { id: 4 }.id(), RemoteId(4));
    assert_eq!(CreatedNote { id: 5, commit: 1 }.id(), RemoteId(5));
    assert_eq!(responses::Folder { id: 6, state: State::Clean, device_folder: None }.id(), RemoteId(6));
    assert_eq!(responses::Note { id: 7, commit: 1, state: State::Clean, device_note: None }.id(), RemoteId(7));
    assert_eq!(Commit { note_id: 8, commit: 1, state: State::Clean }.note_id(), RemoteId(8));
    let _ = StorageError::NoteNotFound;
}
