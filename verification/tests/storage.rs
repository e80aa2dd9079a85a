use base64ct::{Base64, Encoding};
use reax::base::State;
use reax::note::crypto::DeviceCipher;
use reax::note::models::{Account, AccountKind, Device, Folder, LocalId, Note, RemoteId, State as ModelState, StoreKey};
use reax::note::storage::{
    edited_commit_and_state, ensure_email_unused, existing_account, existing_folder, first_run_values,
    folder_device_requests, mavinote_account_of, mavinote_account_row, needs_load, note_text_and_name,
    note_device_requests, push_loaded, syncs_with_server, remote_counterpart, removal, replace_note, require_mavinote, RemoteUpdate,
    Removal,
};
use reax::note::{Error, StorageError};
use x25519_dalek::{PublicKey, StaticSecret};

fn note(id: i32, text: &str) -> Note {
    Note { id, folder_id: 1, remote_id: None, commit: 0, name: text.to_string(), text: text.to_string(), state: ModelState::Clean }
}

fn public_b64(secret: [u8; 32]) -> String {
    Base64::encode_string(PublicKey::from(&StaticSecret::from(secret)).as_bytes())
}

#[test]
fn name_is_first_thirty_characters_without_line_breaks() {
    let (text, name) = note_text_and_name("  Shopping\nlist for the weekend: apples, pears  \n");
    assert_eq!(text, "Shopping\nlist for the weekend: apples, pears");
    assert_eq!(name, "Shoppinglist for the weekend:");
}

#[test]
fn short_text_is_its_own_name() {
    let (text, name) = note_text_and_name("\t hi \t");
    assert_eq!(text, "hi");
    assert_eq!(name, "hi");
}

#[test]
fn name_counts_characters_not_bytes() {
    let typed = "ğüşöçıĞÜŞÖÇİ ğüşöçıĞÜŞÖÇİ ğüşöçıĞÜŞÖÇİ";
    let (_, name) = note_text_and_name(typed);
    assert_eq!(name.chars().count(), 30);
    assert_eq!(name, typed.chars().take(30).collect::<String>());
}

#[test]
fn blank_text_has_empty_name() {
    let (text, name) = note_text_and_name(" \n\u{A0} ");
    assert_eq!(text, "");
    assert_eq!(name, "");
}

#[test]
fn lists_load_when_initial_or_failed() {
    assert!(needs_load(&State::<Vec<i32>, ()>::Initial));
    assert!(needs_load(&State::<Vec<i32>, ()>::Failed(())));
    assert!(!needs_load(&State::<Vec<i32>, ()>::Loading));
    assert!(!needs_load(&State::<Vec<i32>, ()>::Loaded(vec![])));
}

#[test]
fn push_reaches_only_loaded_lists() {
    let mut loaded: State<Vec<i32>, ()> = State::Loaded(vec![1]);
    push_loaded(&mut loaded, 2);
    assert!(matches!(loaded, State::Loaded(ref v) if v == &vec![1, 2]));
    let mut loading: State<Vec<i32>, ()> = State::Loading;
    push_loaded(&mut loading, 2);
    assert!(matches!(loading, State::Loading));
}

#[test]
fn replace_note_replaces_first_match() {
    let mut state: State<Vec<Note>, ()> = State::Loaded(vec![note(1, "a"), note(2, "b"), note(2, "c")]);
    replace_note(&mut state, 2, note(2, "new"));
    match state {
        State::Loaded(v) => {
            assert_eq!(v[0].text, "a");
            assert_eq!(v[1].text, "new");
            assert_eq!(v[2].text, "c");
        }
        _ => panic!("not loaded"),
    }
    let mut state: State<Vec<Note>, ()> = State::Loaded(vec![note(1, "a")]);
    replace_note(&mut state, 9, note(9, "x"));
    assert!(matches!(state, State::Loaded(ref v) if v.len() == 1 && v[0].text == "a"));
}

#[test]
fn only_existing_mavinote_accounts_qualify() {
    assert!(matches!(mavinote_account_of(None), Err(Error::Storage(StorageError::AccountNotFound))));
    let local = Account { id: 1, name: "local".into(), kind: AccountKind::Local };
    assert!(matches!(mavinote_account_of(Some(local)), Err(Error::Storage(StorageError::NotMavinoteAccount))));
    let remote = Account { id: 2, name: "a@b.c".into(), kind: AccountKind::Mavinote };
    assert_eq!(mavinote_account_of(Some(remote)).ok().unwrap().id, 2);
}

#[test]
fn missing_account_and_folder_are_reported() {
    assert!(matches!(existing_account(None), Err(Error::Storage(StorageError::AccountNotFound))));
    assert!(matches!(existing_folder(None), Err(Error::Storage(StorageError::FolderNotFound))));
    let f = Folder { id: 3, account_id: 1, remote_id: Some(8), name: "f".into(), state: ModelState::Clean };
    assert_eq!(existing_folder(Some(f)).ok().unwrap().id, 3);
}

#[test]
fn folder_names_are_sealed_per_device() {
    let me = [5u8; 32];
    let devices = vec![
        Device { id: 10, account_id: 1, pubkey: public_b64([6u8; 32]), created_at: 0 },
        Device { id: 11, account_id: 1, pubkey: public_b64([7u8; 32]), created_at: 0 },
    ];
    let reqs = folder_device_requests(&me, &devices, "Work").unwrap();
    assert_eq!(reqs.len(), 2);
    assert_eq!(reqs[0].device_id, 10);
    assert_eq!(reqs[1].device_id, 11);
    assert_ne!(reqs[0].name, reqs[1].name);
    let at_ten = DeviceCipher::try_from_key(99, &[6u8; 32], &public_b64(me)).unwrap();
    assert_eq!(at_ten.decrypt(&reqs[0].name).unwrap(), "Work");
}

#[test]
fn folder_sealing_stops_at_a_bad_key() {
    let devices = vec![
        Device { id: 10, account_id: 1, pubkey: public_b64([6u8; 32]), created_at: 0 },
        Device { id: 11, account_id: 1, pubkey: "bad key".into(), created_at: 0 },
    ];
    assert!(folder_device_requests(&[5u8; 32], &devices, "Work").is_err());
}

#[test]
fn note_requests_are_sealed_per_device() {
    let devices = vec![
        Device { id: 4, account_id: 1, pubkey: public_b64([6u8; 32]), created_at: 0 },
        Device { id: 5, account_id: 1, pubkey: public_b64([8u8; 32]), created_at: 0 },
    ];
    let reqs = note_device_requests(&[5u8; 32], &devices, "title", "body").unwrap();
    assert_eq!(reqs.len(), 2);
    for (req, secret) in reqs.iter().zip([[6u8; 32], [8u8; 32]]) {
        assert_ne!(req.name, "title");
        assert_ne!(req.text, "body");
        let back = DeviceCipher::try_from_key(1, &secret, &public_b64([5u8; 32])).unwrap();
        assert_eq!(back.decrypt(&req.name).unwrap(), "title");
        assert_eq!(back.decrypt(&req.text).unwrap(), "body");
    }
    assert_eq!((reqs[0].device_id, reqs[1].device_id), (4, 5));
}

#[test]
fn note_sealing_stops_at_a_bad_key() {
    let devices = vec![Device { id: 4, account_id: 1, pubkey: "bad key".into(), created_at: 0 }];
    assert!(note_device_requests(&[5u8; 32], &devices, "title", "body").is_err());
}

#[test]
fn only_mavinote_accounts_sync_with_the_server() {
    assert!(syncs_with_server(AccountKind::Mavinote));
    assert!(!syncs_with_server(AccountKind::Local));
}

#[test]
fn only_mavinote_items_have_remote_counterparts() {
    assert_eq!(remote_counterpart(Some(RemoteId(3)), AccountKind::Mavinote), Some(RemoteId(3)));
    assert_eq!(remote_counterpart(Some(RemoteId(3)), AccountKind::Local), None);
    assert_eq!(remote_counterpart(None, AccountKind::Mavinote), None);
}

#[test]
fn edits_that_do_not_reach_the_server_stay_modified() {
    assert_eq!(edited_commit_and_state(4, RemoteUpdate::Updated(5)), (5, ModelState::Clean));
    assert_eq!(edited_commit_and_state(4, RemoteUpdate::Failed), (4, ModelState::Modified));
    assert_eq!(edited_commit_and_state(4, RemoteUpdate::NotSynced), (4, ModelState::Clean));
}

#[test]
fn failed_remote_delete_only_marks_deleted() {
    assert!(removal(false) == Removal::Purge);
    assert!(removal(true) == Removal::MarkDeleted);
}

#[test]
fn used_email_is_refused() {
    assert!(matches!(ensure_email_unused(true), Err(Error::Storage(StorageError::AccountEmailUsed))));
    assert!(ensure_email_unused(false).is_ok());
    assert!(matches!(require_mavinote::<i32>(None), Err(Error::Storage(StorageError::NotMavinoteAccount))));
    assert_eq!(require_mavinote(Some(3)).ok(), Some(3));
}

#[test]
fn mavinote_accounts_are_named_by_email() {
    let (name, kind, data) = mavinote_account_row("a@b.c".to_string(), "tok".to_string());
    assert_eq!(name, "a@b.c");
    assert_eq!(kind, AccountKind::Mavinote);
    assert_eq!((data.email.as_str(), data.token.as_str()), ("a@b.c", "tok"));
}

#[test]
fn first_run_stores_a_matching_key_pair_and_password() {
    let values = first_run_values();
    assert_eq!(values.len(), 4);
    assert_eq!(values[0].key, StoreKey::Version);
    assert_eq!(values[0].value, "1");
    assert_eq!(values[1].key, StoreKey::IdentityPrivKey);
    assert_eq!(values[2].key, StoreKey::IdentityPubKey);
    assert_eq!(values[3].key, StoreKey::Password);
    let secret: [u8; 32] = Base64::decode_vec(&values[1].value).unwrap().try_into().unwrap();
    assert_eq!(values[2].value, public_b64(secret));
    assert_eq!(values[3].value.len(), 32);
    assert!(values[3].value.chars().all(|c| c.is_ascii_alphanumeric()));
}

#[test]
fn models_expose_their_ids() {
    let f = Folder { id: 3, account_id: 1, remote_id: Some(8), name: "f".into(), state: ModelState::Clean };
    assert_eq!(f.local_id(), LocalId(3));
    assert_eq!(f.remote_id(), Some(RemoteId(8)));
    let n = note(4, "x");
    assert_eq!(n.local_id(), LocalId(4));
    assert_eq!(n.remote_id(), None);
}
