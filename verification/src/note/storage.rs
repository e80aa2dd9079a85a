//! The decisions of local storage: what to do with notes, folders and
//! accounts, given what the database and the server answered.
use vstd::prelude::*;
use crate::base::State;
use crate::note::{Error, StorageError};
use crate::note::crypto::{self, DeviceCipher};
use crate::note::models::{Account, AccountKind, Device, Folder, Note, RemoteId, State as ModelState};
use crate::note::accounts::mavinote::{CreateFolderRequest, CreateNoteRequest};
use rand::Rng;
use crate::text::{chars_of, string_from_chars, trim_chars, trim_spec};

verus! {

/// How many characters of a note's text make up its name.
pub const NAME_LENGTH: usize = 30;

/// The name of a note whose trimmed text is `text`: its first
/// `NAME_LENGTH` characters, without line breaks.
pub open spec fn note_name_spec(text: Seq<char>) -> Seq<char> {
    let n = if text.len() < NAME_LENGTH { text.len() as int } else { NAME_LENGTH as int };
    text.take(n).filter(|c: char| c != '\n')
}

/// The text that is stored for the typed `text` (it without leading and
/// trailing whitespace) and the name derived from it.
pub fn note_text_and_name(text: &str) -> (r: (String, String))
    ensures
        r.0@ == trim_spec(text@),
        r.1@ == note_name_spec(trim_spec(text@)),
{
    let chars = chars_of(text);
    let trimmed = trim_chars(&chars);
    let ghost t = trimmed@;
    let n: usize = if trimmed.len() < NAME_LENGTH { trimmed.len() } else { NAME_LENGTH };
    let mut name: Vec<char> = Vec::new();
    let mut i: usize = 0;
    while i < n
        invariant
            t == trimmed@,
            n <= t.len(),
            i <= n,
            name@ == t.take(i as int).filter(|c: char| c != '\n'),
        decreases n - i,
    {
        let c = trimmed[i];
        proof {
            reveal(Seq::filter);
            assert(t.take(i + 1).drop_last() =~= t.take(i as int));
        }
        if c != '\n' {
            name.push(c);
        }
        i = i + 1;
    }
    (string_from_chars(&trimmed), string_from_chars(&name))
}

} // verus!

verus! {

/// Whether an observed list must be (re)loaded from the database before it
/// is handed out: when it was never loaded or loading failed.
pub fn needs_load<T, E>(state: &State<T, E>) -> (r: bool)
    ensures
        r == (state is Initial || state is Failed),
{
    match state {
        State::Initial | State::Failed(_) => true,
        _ => false,
    }
}

/// Appends `item` to an observed list that is loaded; a list that is not
/// loaded is left as it is (it is read in full when next observed).
pub fn push_loaded<T, E>(state: &mut State<Vec<T>, E>, item: T)
    ensures
        match *old(state) {
            State::Loaded(v) => (*final(state) matches State::Loaded(w) && w@ == v@.push(item)),
            _ => *final(state) == *old(state),
        },
{
    match state {
        State::Loaded(list) => list.push(item),
        _ => {},
    }
}

/// The position of the first note in `notes` with id `id`, if any.
pub open spec fn first_note_with_id(notes: Seq<Note>, id: i32) -> Option<int> {
    if exists|i: int| 0 <= i < notes.len() && notes[i].id == id {
        Some(choose|i: int| 0 <= i < notes.len() && notes[i].id == id
            && forall|j: int| 0 <= j < i ==> notes[j].id != id)
    } else {
        None
    }
}

/// Replaces, in a loaded list of notes, the first note with id `id` by `updated`.
pub fn replace_note<E>(state: &mut State<Vec<Note>, E>, id: i32, updated: Note)
    ensures
        match *old(state) {
            State::Loaded(v) => (*final(state) matches State::Loaded(w) && w@ == match first_note_with_id(v@, id) {
                Some(i) => v@.update(i, updated),
                None => v@,
            }),
            _ => *final(state) == *old(state),
        },
{
    match state {
        State::Loaded(notes) => {
            let ghost v = notes@;
            let mut i: usize = 0;
            let mut found: Option<usize> = None;
            while i < notes.len()
                invariant_except_break
                    found is None,
                invariant
                    notes@ == v,
                    i <= v.len(),
                    forall|j: int| 0 <= j < i ==> v[j].id != id,
                ensures
                    found matches Some(k) ==> (k < v.len() && v[k as int].id == id
                        && forall|j: int| 0 <= j < k ==> v[j].id != id),
                    found is None ==> forall|j: int| 0 <= j < v.len() ==> v[j].id != id,
                decreases v.len() - i,
            {
                if notes[i].id == id {
                    found = Some(i);
                    break;
                }
                i = i + 1;
            }
            match found {
                Some(k) => {
                    proof {
                        let c = choose|c: int| 0 <= c < v.len() && v[c].id == id
                            && forall|j: int| 0 <= j < c ==> v[j].id != id;
                        assert(c == k) by {
                            if c > k {
                                assert(v[k as int].id == id);
                            }
                        }
                    }
                    notes.set(k, updated);
                },
                None => {
                    assert(!(exists|i: int| 0 <= i < v.len() && v[i].id == id));
                },
            }
        },
        _ => {},
    }
}

/// The account to remove or add a device to, or why that cannot be done:
/// it must exist and be a Mavinote account.
pub fn mavinote_account_of(account: Option<Account>) -> (r: Result<Account, Error>)
    ensures
        match account {
            None => r matches Err(Error::Storage(StorageError::AccountNotFound)),
            Some(a) => if a.kind == AccountKind::Mavinote {
                r == Ok::<Account, Error>(a)
            } else {
                r matches Err(Error::Storage(StorageError::NotMavinoteAccount))
            },
        },
{
    match account {
        None => Err(Error::Storage(StorageError::AccountNotFound)),
        Some(a) => if a.kind == AccountKind::Mavinote {
            Ok(a)
        } else {
            Err(Error::Storage(StorageError::NotMavinoteAccount))
        },
    }
}

} // verus!

verus! {

/// What sealing `message` for the device with Base64 public key `pubkey`
/// gives, for a device holding the secret `privkey`.
pub open spec fn device_seal(privkey: Seq<u8>, pubkey: Seq<char>, message: Seq<char>) -> Result<Seq<char>, crypto::Error> {
    match crypto::agreed_key(privkey, pubkey) {
        Err(e) => Err(e),
        Ok(k) => match crypto::sealed_text(k, message) {
            Some(t) => Ok(t),
            None => Err(crypto::Error::Encrypt),
        },
    }
}

/// A new folder's name sealed for each device of the account, in the order
/// of `devices`; or the error of the first device for which sealing fails.
pub fn folder_device_requests(privkey: &[u8], devices: &[Device], name: &str) -> (r: Result<Vec<CreateFolderRequest>, crypto::Error>)
    requires
        privkey@.len() == 32,
        crypto::sealable(name@),
    ensures
        r is Ok <==> forall|i: int| 0 <= i < devices@.len() ==> (#[trigger] device_seal(privkey@, devices@[i].pubkey@, name@)) is Ok,
        (forall|i: int| 0 <= i < devices@.len() ==> (#[trigger] crypto::parse_key_spec(devices@[i].pubkey@)) is Ok)
            && crypto::within_limit(name@) ==> r is Ok,
        r matches Ok(reqs) ==> {
            &&& reqs@.len() == devices@.len()
            &&& forall|i: int| 0 <= i < reqs@.len() ==> {
                &&& #[trigger] reqs@[i].device_id == devices@[i].id
                &&& device_seal(privkey@, devices@[i].pubkey@, name@) == Ok::<Seq<char>, crypto::Error>(reqs@[i].name@)
            }
        },
        r matches Err(e) ==> exists|i: int| {
            &&& 0 <= i < devices@.len()
            &&& #[trigger] device_seal(privkey@, devices@[i].pubkey@, name@) == Err::<Seq<char>, crypto::Error>(e)
            &&& forall|j: int| 0 <= j < i ==> (#[trigger] device_seal(privkey@, devices@[j].pubkey@, name@)) is Ok
        },
{
    let mut reqs: Vec<CreateFolderRequest> = Vec::new();
    let mut i: usize = 0;
    while i < devices.len()
        invariant
            privkey@.len() == 32,
            crypto::sealable(name@),
            i <= devices@.len(),
            reqs@.len() == i,
            forall|k: int| 0 <= k < i ==> {
                &&& #[trigger] reqs@[k].device_id == devices@[k].id
                &&& device_seal(privkey@, devices@[k].pubkey@, name@) == Ok::<Seq<char>, crypto::Error>(reqs@[k].name@)
            },
        decreases devices@.len() - i,
    {
        let device = &devices[i];
        let cipher = match DeviceCipher::try_from_key(device.id, privkey, device.pubkey.as_str()) {
            Ok(c) => c,
            Err(e) => {
                proof {
                    assert(device_seal(privkey@, devices@[i as int].pubkey@, name@) == Err::<Seq<char>, crypto::Error>(e));
                    assert forall|j: int| 0 <= j < i implies (#[trigger] device_seal(privkey@, devices@[j].pubkey@, name@)) is Ok by {
                        assert(reqs@[j].device_id == devices@[j].id);
                    }
                }
                return Err(e);
            },
        };
        let sealed = match cipher.encrypt(name) {
            Ok(s) => s,
            Err(e) => {
                proof {
                    assert(device_seal(privkey@, devices@[i as int].pubkey@, name@) == Err::<Seq<char>, crypto::Error>(e));
                    assert forall|j: int| 0 <= j < i implies (#[trigger] device_seal(privkey@, devices@[j].pubkey@, name@)) is Ok by {
                        assert(reqs@[j].device_id == devices@[j].id);
                    }
                }
                return Err(e);
            },
        };
        reqs.push(CreateFolderRequest { name: sealed, device_id: device.id });
        i = i + 1;
    }
    assert forall|j: int| 0 <= j < devices@.len() implies (#[trigger] device_seal(privkey@, devices@[j].pubkey@, name@)) is Ok by {
        assert(reqs@[j].device_id == devices@[j].id);
    }
    Ok(reqs)
}

} // verus!

verus! {

/// What sealing a note's `name` and `text` for the device with Base64
/// public key `pubkey` gives, for a device holding the secret `privkey`.
pub open spec fn device_note_seal(privkey: Seq<u8>, pubkey: Seq<char>, name: Seq<char>, text: Seq<char>) -> Result<(Seq<char>, Seq<char>), crypto::Error> {
    match device_seal(privkey, pubkey, name) {
        Err(e) => Err(e),
        Ok(n) => match device_seal(privkey, pubkey, text) {
            Err(e) => Err(e),
            Ok(t) => Ok((n, t)),
        },
    }
}

/// A note's name and text sealed for each device of the account, in the
/// order of `devices`; or the error of the first device for which sealing
/// fails.
pub fn note_device_requests(privkey: &[u8], devices: &[Device], name: &str, text: &str) -> (r: Result<Vec<CreateNoteRequest>, crypto::Error>)
    requires
        privkey@.len() == 32,
        crypto::sealable(name@),
        crypto::sealable(text@),
    ensures
        r is Ok <==> forall|i: int| 0 <= i < devices@.len() ==> (#[trigger] device_note_seal(privkey@, devices@[i].pubkey@, name@, text@)) is Ok,
        (forall|i: int| 0 <= i < devices@.len() ==> (#[trigger] crypto::parse_key_spec(devices@[i].pubkey@)) is Ok)
            && crypto::within_limit(name@) && crypto::within_limit(text@) ==> r is Ok,
        r matches Ok(reqs) ==> {
            &&& reqs@.len() == devices@.len()
            &&& forall|i: int| 0 <= i < reqs@.len() ==> {
                &&& #[trigger] reqs@[i].device_id == devices@[i].id
                &&& device_note_seal(privkey@, devices@[i].pubkey@, name@, text@) == Ok::<(Seq<char>, Seq<char>), crypto::Error>((reqs@[i].name@, reqs@[i].text@))
            }
        },
        r matches Err(e) ==> exists|i: int| {
            &&& 0 <= i < devices@.len()
            &&& #[trigger] device_note_seal(privkey@, devices@[i].pubkey@, name@, text@) == Err::<(Seq<char>, Seq<char>), crypto::Error>(e)
            &&& forall|j: int| 0 <= j < i ==> (#[trigger] device_note_seal(privkey@, devices@[j].pubkey@, name@, text@)) is Ok
        },
{
    let mut reqs: Vec<CreateNoteRequest> = Vec::new();
    let mut i: usize = 0;
    while i < devices.len()
        invariant
            privkey@.len() == 32,
            crypto::sealable(name@),
            crypto::sealable(text@),
            i <= devices@.len(),
            reqs@.len() == i,
            forall|k: int| 0 <= k < i ==> {
                &&& #[trigger] reqs@[k].device_id == devices@[k].id
                &&& device_note_seal(privkey@, devices@[k].pubkey@, name@, text@) == Ok::<(Seq<char>, Seq<char>), crypto::Error>((reqs@[k].name@, reqs@[k].text@))
            },
        decreases devices@.len() - i,
    {
        let device = &devices[i];
        let ghost pk = devices@[i as int].pubkey@;
        let cipher = match DeviceCipher::try_from_key(device.id, privkey, device.pubkey.as_str()) {
            Ok(c) => c,
            Err(e) => {
                proof {
                    assert(device_note_seal(privkey@, pk, name@, text@) == Err::<(Seq<char>, Seq<char>), crypto::Error>(e));
                    assert forall|j: int| 0 <= j < i implies (#[trigger] device_note_seal(privkey@, devices@[j].pubkey@, name@, text@)) is Ok by {
                        assert(reqs@[j].device_id == devices@[j].id);
                    }
                }
                return Err(e);
            },
        };
        let sealed_name = match cipher.encrypt(name) {
            Ok(n) => n,
            Err(e) => {
                proof {
                    assert(device_note_seal(privkey@, pk, name@, text@) == Err::<(Seq<char>, Seq<char>), crypto::Error>(e));
                    assert forall|j: int| 0 <= j < i implies (#[trigger] device_note_seal(privkey@, devices@[j].pubkey@, name@, text@)) is Ok by {
                        assert(reqs@[j].device_id == devices@[j].id);
                    }
                }
                return Err(e);
            },
        };
        let sealed_text = match cipher.encrypt(text) {
            Ok(t) => t,
            Err(e) => {
                proof {
                    assert(device_note_seal(privkey@, pk, name@, text@) == Err::<(Seq<char>, Seq<char>), crypto::Error>(e));
                    assert forall|j: int| 0 <= j < i implies (#[trigger] device_note_seal(privkey@, devices@[j].pubkey@, name@, text@)) is Ok by {
                        assert(reqs@[j].device_id == devices@[j].id);
                    }
                }
                return Err(e);
            },
        };
        assert(device_note_seal(privkey@, pk, name@, text@) == Ok::<(Seq<char>, Seq<char>), crypto::Error>((sealed_name@, sealed_text@)));
        reqs.push(CreateNoteRequest { name: sealed_name, text: sealed_text, device_id: device.id });
        i = i + 1;
    }
    assert forall|j: int| 0 <= j < devices@.len() implies (#[trigger] device_note_seal(privkey@, devices@[j].pubkey@, name@, text@)) is Ok by {
        assert(reqs@[j].device_id == devices@[j].id);
    }
    Ok(reqs)
}

/// The account in which to create a folder, or why there is none.
pub fn existing_account(account: Option<Account>) -> (r: Result<Account, Error>)
    ensures
        match account {
            None => r matches Err(Error::Storage(StorageError::AccountNotFound)),
            Some(a) => r == Ok::<Account, Error>(a),
        },
{
    match account {
        None => Err(Error::Storage(StorageError::AccountNotFound)),
        Some(a) => Ok(a),
    }
}

/// The folder in which to create a note, or why there is none.
pub fn existing_folder(folder: Option<Folder>) -> (r: Result<Folder, Error>)
    ensures
        match folder {
            None => r matches Err(Error::Storage(StorageError::FolderNotFound)),
            Some(f) => r == Ok::<Folder, Error>(f),
        },
{
    match folder {
        None => Err(Error::Storage(StorageError::FolderNotFound)),
        Some(f) => Ok(f),
    }
}

/// Whether the folders and notes of an account of `kind` have server copies:
/// those of a Mavinote account do.
pub fn syncs_with_server(kind: AccountKind) -> (r: bool)
    ensures
        r == (kind == AccountKind::Mavinote),
{
    kind == AccountKind::Mavinote
}

/// The server copy of a folder or note that a change must also reach: the
/// item's remote id, when it has one and its account is a Mavinote account.
pub fn remote_counterpart(remote_id: Option<RemoteId>, kind: AccountKind) -> (r: Option<RemoteId>)
    ensures
        r == if kind == AccountKind::Mavinote { remote_id } else { None::<RemoteId> },
{
    if kind == AccountKind::Mavinote {
        remote_id
    } else {
        None
    }
}

/// What the server answered when a note's new text was sent to it.
pub enum RemoteUpdate {
    /// The note has no server copy, so nothing was sent.
    NotSynced,
    /// The server recorded the text under this commit.
    Updated(i32),
    /// The server could not be reached or refused.
    Failed,
}

/// The commit and state under which an edited note is stored: a note that
/// the server could not take stays modified, to be sent by the next sync.
pub fn edited_commit_and_state(commit: i32, remote: RemoteUpdate) -> (r: (i32, ModelState))
    ensures
        r == match remote {
            RemoteUpdate::NotSynced => (commit, ModelState::Clean),
            RemoteUpdate::Updated(c) => (c, ModelState::Clean),
            RemoteUpdate::Failed => (commit, ModelState::Modified),
        },
{
    match remote {
        RemoteUpdate::NotSynced => (commit, ModelState::Clean),
        RemoteUpdate::Updated(c) => (c, ModelState::Clean),
        RemoteUpdate::Failed => (commit, ModelState::Modified),
    }
}

/// How a folder or note leaves local storage.
#[derive(PartialEq, Eq, Structural)]
pub enum Removal {
    /// It is gone from local storage.
    Purge,
    /// It stays, marked deleted, until a sync removes it from the server.
    MarkDeleted,
}

/// How an item is removed once the server was asked to delete it, where
/// `remote_failed` says whether that failed.
pub fn removal(remote_failed: bool) -> (r: Removal)
    ensures
        r == if remote_failed { Removal::MarkDeleted } else { Removal::Purge },
{
    if remote_failed {
        Removal::MarkDeleted
    } else {
        Removal::Purge
    }
}

} // verus!

verus! {

/// Whether `c` is an ASCII letter or digit.
pub open spec fn is_alphanumeric(c: char) -> bool {
    ('a' <= c && c <= 'z') || ('A' <= c && c <= 'Z') || ('0' <= c && c <= '9')
}

/// Calls `rand::thread_rng().sample(rand::distributions::Alphanumeric)`,
/// which the crate documents as a uniform draw over `a-z`, `A-Z` and `0-9`.
#[verifier::external_body]
fn random_alphanumeric() -> (c: char)
    ensures
        is_alphanumeric(c),
{
    rand::thread_rng().sample(rand::distributions::Alphanumeric) as char
}

/// Calls `x25519_dalek::StaticSecret::random_from_rng(rand::rngs::OsRng)`
/// and takes its 32 bytes. Nothing more is stated: they are random.
#[verifier::external_body]
fn random_secret() -> (secret: Vec<u8>)
    ensures
        secret@.len() == 32,
{
    x25519_dalek::StaticSecret::random_from_rng(rand::rngs::OsRng).to_bytes().to_vec()
}

/// The length of the password a device uses with the server.
pub const PASSWORD_LENGTH: usize = 32;

/// The version the store is initialised with.
pub open spec fn store_version() -> Seq<char> {
    "1"@
}

/// What a device stores when it first starts: the store version, a new
/// x25519 key pair in Base64 (the public key is the one of the secret), and
/// a random password of ASCII letters and digits.
pub fn first_run_values() -> (values: Vec<crate::note::models::StoreValue>)
    ensures
        values@.len() == 4,
        values@[0].key == crate::note::models::StoreKey::Version && values@[0].value@ == store_version(),
        values@[1].key == crate::note::models::StoreKey::IdentityPrivKey,
        values@[2].key == crate::note::models::StoreKey::IdentityPubKey,
        values@[3].key == crate::note::models::StoreKey::Password,
        exists|secret: Seq<u8>| {
            &&& secret.len() == 32
            &&& values@[1].value@ == crypto::base64_encoding(secret)
            &&& values@[2].value@ == crypto::base64_encoding(#[trigger] crypto::x25519_public(secret))
        },
        values@[3].value@.len() == PASSWORD_LENGTH,
        forall|i: int| 0 <= i < PASSWORD_LENGTH ==> is_alphanumeric(#[trigger] values@[3].value@[i]),
{
    let mut password = String::new();
    let mut i: usize = 0;
    while i < PASSWORD_LENGTH
        invariant
            i <= PASSWORD_LENGTH,
            password@.len() == i,
            forall|j: int| 0 <= j < i ==> is_alphanumeric(#[trigger] password@[j]),
        decreases PASSWORD_LENGTH - i,
    {
        let c = random_alphanumeric();
        crate::text::push_char(&mut password, c);
        i = i + 1;
    }
    let secret = random_secret();
    let public = crypto::x25519_public_key(&secret);
    let mut values: Vec<crate::note::models::StoreValue> = Vec::new();
    values.push(crate::note::models::StoreValue { key: crate::note::models::StoreKey::Version, value: String::from_str("1") });
    values.push(crate::note::models::StoreValue { key: crate::note::models::StoreKey::IdentityPrivKey, value: crypto::base64_encode(&secret) });
    values.push(crate::note::models::StoreValue { key: crate::note::models::StoreKey::IdentityPubKey, value: crypto::base64_encode(&public) });
    values.push(crate::note::models::StoreValue { key: crate::note::models::StoreKey::Password, value: password });
    values
}

/// Refuses to register an account for an email that an account already uses.
pub fn ensure_email_unused(used: bool) -> (r: Result<(), Error>)
    ensures
        used ==> r matches Err(Error::Storage(StorageError::AccountEmailUsed)),
        !used ==> r is Ok,
{
    if used {
        Err(Error::Storage(StorageError::AccountEmailUsed))
    } else {
        Ok(())
    }
}

/// The client of a Mavinote account, or why there is none: the account has
/// no Mavinote credentials.
pub fn require_mavinote<C>(client: Option<C>) -> (r: Result<C, Error>)
    ensures
        match client {
            Some(c) => r == Ok::<C, Error>(c),
            None => r matches Err(Error::Storage(StorageError::NotMavinoteAccount)),
        },
{
    match client {
        Some(c) => Ok(c),
        None => Err(Error::Storage(StorageError::NotMavinoteAccount)),
    }
}

/// The account row made for a Mavinote account: named by its email, and
/// holding the email and the session token.
pub fn mavinote_account_row(email: String, token: String) -> (r: (String, AccountKind, crate::note::models::Mavinote))
    ensures
        r.0@ == email@,
        r.1 == AccountKind::Mavinote,
        r.2.email@ == email@,
        r.2.token@ == token@,
{
    let name = email.clone();
    (name, AccountKind::Mavinote, crate::note::models::Mavinote { email, token })
}

} // verus!

verus! {

/// Whether the store has never been set up: it holds no version yet.
pub fn needs_first_run(version: Option<&crate::note::models::StoreValue>) -> (r: bool)
    ensures
        r == version is None,
{
    version.is_none()
}

} // verus!
