//! The decisions of synchronising a Mavinote account with the server: which
//! devices changed, what to pull, what to push, and what to answer other
//! devices' requests with.
use vstd::prelude::*;
use crate::note::{Error, StorageError};
use crate::note::crypto::{self, DeviceCipher};
use crate::note::models::{self, Folder, LocalId, Note, RemoteId, State as ModelState};
use crate::note::accounts::mavinote::{self, CreateFolderRequest, CreateNoteRequest, CreateRequests, RespondRequests, RespondFolderRequest, RespondNoteRequest};
use crate::note::accounts::mavinote::responses;

verus! {

impl Clone for responses::Device {
    fn clone(&self) -> (r: Self)
        ensures
            r == *self,
    {
        responses::Device { id: self.id, pubkey: self.pubkey.clone(), created_at: self.created_at }
    }
}

/// Whether a stored device and a listed device are the same device with the same key.
pub open spec fn same_device(stored: models::Device, listed: responses::Device) -> bool {
    stored.id == listed.id && stored.pubkey@ == listed.pubkey@
}

/// Whether the server still lists `stored`, with the same key.
pub open spec fn still_listed(stored: models::Device, listed: Seq<responses::Device>) -> bool {
    exists|j: int| 0 <= j < listed.len() && same_device(stored, #[trigger] listed[j])
}

/// Whether `listed` is already stored, with the same key.
pub open spec fn already_stored(listed: responses::Device, stored: Seq<models::Device>) -> bool {
    exists|j: int| 0 <= j < stored.len() && same_device(#[trigger] stored[j], listed)
}

/// The ids of the stored devices that the server no longer lists with the
/// same key: they are deleted from local storage.
pub open spec fn stale_device_ids(stored: Seq<models::Device>, listed: Seq<responses::Device>) -> Seq<i32> {
    stored.filter(|d: models::Device| !still_listed(d, listed)).map_values(|d: models::Device| d.id)
}

/// The listed devices that are not stored with the same key: they are added
/// to local storage.
pub open spec fn fresh_devices_spec(stored: Seq<models::Device>, listed: Seq<responses::Device>) -> Seq<responses::Device> {
    listed.filter(|d: responses::Device| !already_stored(d, stored))
}

fn is_listed(stored: &models::Device, listed: &[responses::Device]) -> (r: bool)
    ensures
        r == still_listed(*stored, listed@),
{
    let mut j: usize = 0;
    while j < listed.len()
        invariant
            j <= listed@.len(),
            forall|k: int| 0 <= k < j ==> !same_device(*stored, #[trigger] listed@[k]),
        decreases listed@.len() - j,
    {
        if stored.id == listed[j].id && stored.pubkey == listed[j].pubkey {
            return true;
        }
        j = j + 1;
    }
    false
}

fn is_stored(listed: &responses::Device, stored: &[models::Device]) -> (r: bool)
    ensures
        r == already_stored(*listed, stored@),
{
    let mut j: usize = 0;
    while j < stored.len()
        invariant
            j <= stored@.len(),
            forall|k: int| 0 <= k < j ==> !same_device(#[trigger] stored@[k], *listed),
        decreases stored@.len() - j,
    {
        if stored[j].id == listed.id && stored[j].pubkey == listed.pubkey {
            return true;
        }
        j = j + 1;
    }
    false
}

/// Compares the devices stored for an account with those the server lists:
/// the ids of stored devices to delete, and the listed devices to add.
pub fn device_changes(stored: &[models::Device], listed: &[responses::Device]) -> (r: (Vec<i32>, Vec<responses::Device>))
    ensures
        r.0@ == stale_device_ids(stored@, listed@),
        r.1@ == fresh_devices_spec(stored@, listed@),
{
    let mut stale: Vec<i32> = Vec::new();
    let mut i: usize = 0;
    while i < stored.len()
        invariant
            i <= stored@.len(),
            stale@ == stored@.take(i as int).filter(|d: models::Device| !still_listed(d, listed@)).map_values(|d: models::Device| d.id),
        decreases stored@.len() - i,
    {
        proof {
            reveal(Seq::filter);
            assert(stored@.take(i + 1).drop_last() =~= stored@.take(i as int));
        }
        if !is_listed(&stored[i], listed) {
            stale.push(stored[i].id);
        }
        proof {
            let p = |d: models::Device| !still_listed(d, listed@);
            let before = stored@.take(i as int).filter(p);
            let after = stored@.take(i + 1).filter(p);
            if p(stored@[i as int]) {
                assert(after == before.push(stored@[i as int]));
                assert(after.map_values(|d: models::Device| d.id) =~= before.map_values(|d: models::Device| d.id).push(stored@[i as int].id));
            } else {
                assert(after == before);
            }
        }
        i = i + 1;
    }
    assert(stored@.take(stored@.len() as int) =~= stored@);
    let mut fresh: Vec<responses::Device> = Vec::new();
    let mut i: usize = 0;
    while i < listed.len()
        invariant
            i <= listed@.len(),
            fresh@ == listed@.take(i as int).filter(|d: responses::Device| !already_stored(d, stored@)),
        decreases listed@.len() - i,
    {
        proof {
            reveal(Seq::filter);
            assert(listed@.take(i + 1).drop_last() =~= listed@.take(i as int));
        }
        if !is_stored(&listed[i], stored) {
            fresh.push(listed[i].clone());
        }
        i = i + 1;
    }
    assert(listed@.take(listed@.len() as int) =~= listed@);
    (stale, fresh)
}

} // verus!

verus! {

/// Sealing channels to the devices the server lists, in their order; or the
/// error of the first device whose key does not parse.
pub fn listed_device_ciphers(privkey: &[u8], devices: &[responses::Device]) -> (r: Result<Vec<DeviceCipher>, crypto::Error>)
    requires
        privkey@.len() == 32,
    ensures
        r is Ok <==> forall|i: int| 0 <= i < devices@.len() ==> (#[trigger] crypto::agreed_key(privkey@, devices@[i].pubkey@)) is Ok,
        r matches Ok(cs) ==> {
            &&& cs@.len() == devices@.len()
            &&& forall|i: int| 0 <= i < cs@.len() ==> {
                &&& #[trigger] cs@[i].id() == devices@[i].id
                &&& crypto::keyed_for(cs@[i], privkey@, devices@[i].pubkey@)
            }
            &&& crypto::full_keys(cs@)
        },
        r matches Err(e) ==> exists|i: int| {
            &&& 0 <= i < devices@.len()
            &&& #[trigger] crypto::agreed_key(privkey@, devices@[i].pubkey@) == Err::<Seq<u8>, crypto::Error>(e)
            &&& forall|j: int| 0 <= j < i ==> (#[trigger] crypto::agreed_key(privkey@, devices@[j].pubkey@)) is Ok
        },
{
    let mut cs: Vec<DeviceCipher> = Vec::new();
    let mut i: usize = 0;
    while i < devices.len()
        invariant
            privkey@.len() == 32,
            i <= devices@.len(),
            cs@.len() == i,
            forall|k: int| 0 <= k < i ==> {
                &&& #[trigger] cs@[k].id() == devices@[k].id
                &&& crypto::keyed_for(cs@[k], privkey@, devices@[k].pubkey@)
            },
            crypto::full_keys(cs@),
        decreases devices@.len() - i,
    {
        match DeviceCipher::try_from_key(devices[i].id, privkey, devices[i].pubkey.as_str()) {
            Ok(c) => cs.push(c),
            Err(e) => {
                proof {
                    assert forall|j: int| 0 <= j < i implies (#[trigger] crypto::agreed_key(privkey@, devices@[j].pubkey@)) is Ok by {
                        assert(cs@[j].id() == devices@[j].id);
                    }
                }
                return Err(e);
            },
        }
        i = i + 1;
    }
    assert forall|j: int| 0 <= j < devices@.len() implies (#[trigger] crypto::agreed_key(privkey@, devices@[j].pubkey@)) is Ok by {
        assert(cs@[j].id() == devices@[j].id);
    }
    Ok(cs)
}

/// Sealing channels to the devices stored for an account, in their order;
/// or the error of the first device whose key does not parse.
pub fn stored_device_ciphers(privkey: &[u8], devices: &[models::Device]) -> (r: Result<Vec<DeviceCipher>, crypto::Error>)
    requires
        privkey@.len() == 32,
    ensures
        r is Ok <==> forall|i: int| 0 <= i < devices@.len() ==> (#[trigger] crypto::agreed_key(privkey@, devices@[i].pubkey@)) is Ok,
        r matches Ok(cs) ==> {
            &&& cs@.len() == devices@.len()
            &&& forall|i: int| 0 <= i < cs@.len() ==> {
                &&& #[trigger] cs@[i].id() == devices@[i].id
                &&& crypto::keyed_for(cs@[i], privkey@, devices@[i].pubkey@)
            }
            &&& crypto::full_keys(cs@)
        },
        r matches Err(e) ==> exists|i: int| {
            &&& 0 <= i < devices@.len()
            &&& #[trigger] crypto::agreed_key(privkey@, devices@[i].pubkey@) == Err::<Seq<u8>, crypto::Error>(e)
            &&& forall|j: int| 0 <= j < i ==> (#[trigger] crypto::agreed_key(privkey@, devices@[j].pubkey@)) is Ok
        },
{
    let mut cs: Vec<DeviceCipher> = Vec::new();
    let mut i: usize = 0;
    while i < devices.len()
        invariant
            privkey@.len() == 32,
            i <= devices@.len(),
            cs@.len() == i,
            forall|k: int| 0 <= k < i ==> {
                &&& #[trigger] cs@[k].id() == devices@[k].id
                &&& crypto::keyed_for(cs@[k], privkey@, devices@[k].pubkey@)
            },
            crypto::full_keys(cs@),
        decreases devices@.len() - i,
    {
        match DeviceCipher::try_from_key(devices[i].id, privkey, devices[i].pubkey.as_str()) {
            Ok(c) => cs.push(c),
            Err(e) => {
                proof {
                    assert forall|j: int| 0 <= j < i implies (#[trigger] crypto::agreed_key(privkey@, devices@[j].pubkey@)) is Ok by {
                        assert(cs@[j].id() == devices@[j].id);
                    }
                }
                return Err(e);
            },
        }
        i = i + 1;
    }
    assert forall|j: int| 0 <= j < devices@.len() implies (#[trigger] crypto::agreed_key(privkey@, devices@[j].pubkey@)) is Ok by {
        assert(cs@[j].id() == devices@[j].id);
    }
    Ok(cs)
}

/// The position of the first channel to `device_id`, if any.
pub open spec fn first_cipher_for(ciphers: Seq<DeviceCipher>, device_id: i32) -> Option<int> {
    if exists|i: int| 0 <= i < ciphers.len() && ciphers[i].id() == device_id {
        Some(choose|i: int| 0 <= i < ciphers.len() && ciphers[i].id() == device_id
            && forall|j: int| 0 <= j < i ==> ciphers[j].id() != device_id)
    } else {
        None
    }
}

/// The position of the first channel to `device_id`, if any.
pub fn find_cipher(ciphers: &[DeviceCipher], device_id: i32) -> (r: Option<usize>)
    ensures
        match r {
            Some(i) => first_cipher_for(ciphers@, device_id) == Some(i as int),
            None => first_cipher_for(ciphers@, device_id) is None,
        },
        r matches Some(i) ==> i < ciphers@.len() && ciphers@[i as int].id() == device_id,
{
    let mut i: usize = 0;
    while i < ciphers.len()
        invariant
            i <= ciphers@.len(),
            forall|j: int| 0 <= j < i ==> ciphers@[j].id() != device_id,
        decreases ciphers@.len() - i,
    {
        if ciphers[i].device_id() == device_id {
            proof {
                let c = choose|c: int| 0 <= c < ciphers@.len() && ciphers@[c].id() == device_id
                    && forall|j: int| 0 <= j < c ==> ciphers@[j].id() != device_id;
                assert(c == i) by {
                    if c > i {
                        assert(ciphers@[i as int].id() == device_id);
                    }
                }
            }
            return Some(i);
        }
        i = i + 1;
    }
    None
}

} // verus!

verus! {

/// The ids of the notes that commits are about, in order.
pub open spec fn commit_note_ids(commits: Seq<responses::Commit>) -> Seq<i32> {
    commits.map_values(|c: responses::Commit| c.note_id)
}

/// What to do with a folder on the server that has no local copy.
pub enum FolderAdoption {
    /// No device has sealed the folder for this one yet: ask for copies of it
    /// and of its notes.
    AskForCopies(CreateRequests),
    /// It was sealed by a device this one does not know: leave it.
    UnknownSender,
    /// Create it locally under this name.
    Create(String),
}

/// Whether the server reports the folder deleted: then its local copy goes.
pub fn remote_folder_deleted(remote: &responses::Folder) -> (r: bool)
    ensures
        r == (remote.state == ModelState::Deleted),
{
    remote.state == ModelState::Deleted
}

/// What to do with the server folder `remote`, whose notes' latest commits
/// are `commits`, when no local folder has its remote id.
pub fn adopt_remote_folder(remote: &responses::Folder, commits: &[responses::Commit], ciphers: &[DeviceCipher]) -> (r: Result<FolderAdoption, Error>)
    ensures
        match remote.device_folder {
            None => (r matches Ok(FolderAdoption::AskForCopies(reqs))
                && reqs.folder_ids@ == seq![remote.id]
                && reqs.note_ids@ == commit_note_ids(commits@)),
            Some(df) => match first_cipher_for(ciphers@, df.sender_device_id) {
                None => r matches Ok(FolderAdoption::UnknownSender),
                Some(i) => match crypto::opened_text(ciphers@[i].key(), df.name@) {
                    Ok(name) => (r matches Ok(FolderAdoption::Create(n)) && n@ == name),
                    Err(e) => (r matches Err(Error::Crypto(e2)) && e2 == e),
                },
            },
        },
{
    match &remote.device_folder {
        None => {
            let mut note_ids: Vec<i32> = Vec::new();
            let mut i: usize = 0;
            while i < commits.len()
                invariant
                    i <= commits@.len(),
                    note_ids@ == commit_note_ids(commits@.take(i as int)),
                decreases commits@.len() - i,
            {
                note_ids.push(commits[i].note_id);
                assert(commit_note_ids(commits@.take(i + 1)) =~= commit_note_ids(commits@.take(i as int)).push(commits@[i as int].note_id));
                i = i + 1;
            }
            assert(commits@.take(commits@.len() as int) =~= commits@);
            let folder_ids: Vec<i32> = vec![remote.id];
            assert(folder_ids@ =~= seq![remote.id]);
            Ok(FolderAdoption::AskForCopies(CreateRequests { folder_ids, note_ids }))
        },
        Some(df) => match find_cipher(ciphers, df.sender_device_id) {
            None => Ok(FolderAdoption::UnknownSender),
            Some(i) => match ciphers[i].decrypt(df.name.as_str()) {
                Ok(name) => Ok(FolderAdoption::Create(name)),
                Err(e) => Err(Error::Crypto(e)),
            },
        },
    }
}

/// The ids of the notes to ask other devices for after pulling a folder's
/// notes: those of `commits` whose pull, answered in `ask` at the same
/// position, found no copy sealed for this device; in order.
pub open spec fn asked_note_ids(commits: Seq<responses::Commit>, ask: Seq<bool>) -> Seq<i32>
    decreases commits.len(),
{
    if commits.len() == 0 || ask.len() == 0 {
        Seq::empty()
    } else {
        asked_note_ids(commits.drop_last(), ask.drop_last())
            + if ask.last() { seq![commits.last().note_id] } else { Seq::empty() }
    }
}

/// The requests that pulling an existing folder's notes leads to: no folder,
/// and the notes whose pull (answered in `ask`, one per commit) asked for a copy.
pub fn pulled_folder_requests(commits: &[responses::Commit], ask: &[bool]) -> (reqs: CreateRequests)
    requires
        commits@.len() == ask@.len(),
    ensures
        reqs.folder_ids@ == Seq::<i32>::empty(),
        reqs.note_ids@ == asked_note_ids(commits@, ask@),
{
    let mut note_ids: Vec<i32> = Vec::new();
    let mut i: usize = 0;
    while i < commits.len()
        invariant
            commits@.len() == ask@.len(),
            i <= commits@.len(),
            note_ids@ == asked_note_ids(commits@.take(i as int), ask@.take(i as int)),
        decreases commits@.len() - i,
    {
        proof {
            assert(commits@.take(i + 1).drop_last() =~= commits@.take(i as int));
            assert(ask@.take(i + 1).drop_last() =~= ask@.take(i as int));
        }
        if ask[i] {
            note_ids.push(commits[i].note_id);
        }
        proof {
            let before = asked_note_ids(commits@.take(i as int), ask@.take(i as int));
            if ask@[i as int] {
                assert(note_ids@ =~= before + seq![commits@[i as int].note_id]);
            } else {
                assert(note_ids@ =~= before + Seq::<i32>::empty());
            }
        }
        i = i + 1;
    }
    assert(commits@.take(commits@.len() as int) =~= commits@);
    assert(ask@.take(ask@.len() as int) =~= ask@);
    CreateRequests { folder_ids: Vec::new(), note_ids }
}

/// Whether the local copy of a remote note already holds commit `commit`
/// (or is deleted locally, which the local pass handles): then nothing is pulled.
pub fn note_is_current(local: Option<&Note>, commit: i32) -> (r: bool)
    ensures
        r == match local {
            Some(n) => n.state == ModelState::Deleted || n.commit >= commit,
            None => false,
        },
{
    match local {
        Some(n) => n.state == ModelState::Deleted || n.commit >= commit,
        None => false,
    }
}

/// The text that marks where a pulled text ends and the local edits begin.
pub open spec fn conflict_marker() -> Seq<char> {
    "\n___CONFLICT_RESOLVING___\n"@
}

/// The text stored when `pulled` arrives for a local note: a locally
/// modified note keeps its own text after the pulled one, below a marker.
pub open spec fn merged_text(pulled: Seq<char>, local: Note) -> Seq<char> {
    if local.state == ModelState::Modified {
        pulled + conflict_marker() + local.text@
    } else {
        pulled
    }
}

/// What to do with a note fetched from the server.
pub enum RemoteNotePlan {
    /// Nothing: the note is gone from the server or its sender is unknown.
    Skip,
    /// No device has sealed the note for this one yet: ask for a copy.
    AskForCopy,
    /// Overwrite the local copy.
    Update { local_id: LocalId, name: String, text: String, commit: i32, state: ModelState },
    /// Create a local copy.
    Create { name: String, text: String, commit: i32 },
}

/// What to do with the note `remote` fetched from the server (`None` where
/// the server no longer has it), given its local copy `local`, if any.
pub fn plan_remote_note(local: Option<&Note>, remote: Option<&responses::Note>, ciphers: &[DeviceCipher]) -> (r: Result<RemoteNotePlan, Error>)
    ensures
        match remote {
            None => r matches Ok(RemoteNotePlan::Skip),
            Some(rn) => match rn.device_note {
                None => r matches Ok(RemoteNotePlan::AskForCopy),
                Some(dn) => match first_cipher_for(ciphers@, dn.sender_device_id) {
                    None => r matches Ok(RemoteNotePlan::Skip),
                    Some(i) => match crypto::opened_text(ciphers@[i].key(), dn.name@) {
                        Err(e) => (r matches Err(Error::Crypto(e2)) && e2 == e),
                        Ok(name) => match crypto::opened_text(ciphers@[i].key(), dn.text@) {
                            Err(e) => (r matches Err(Error::Crypto(e2)) && e2 == e),
                            Ok(text) => match local {
                                Some(n) => (r matches Ok(RemoteNotePlan::Update { local_id, name: n2, text: t2, commit, state })
                                    && local_id == LocalId(n.id) && n2@ == name && t2@ == merged_text(text, *n)
                                    && commit == rn.commit && state == n.state),
                                None => (r matches Ok(RemoteNotePlan::Create { name: n2, text: t2, commit })
                                    && n2@ == name && t2@ == text && commit == rn.commit),
                            },
                        },
                    },
                },
            },
        },
{
    let rn = match remote {
        None => return Ok(RemoteNotePlan::Skip),
        Some(rn) => rn,
    };
    let dn = match &rn.device_note {
        None => return Ok(RemoteNotePlan::AskForCopy),
        Some(dn) => dn,
    };
    let i = match find_cipher(ciphers, dn.sender_device_id) {
        None => return Ok(RemoteNotePlan::Skip),
        Some(i) => i,
    };
    let name = match ciphers[i].decrypt(dn.name.as_str()) {
        Ok(s) => s,
        Err(e) => return Err(Error::Crypto(e)),
    };
    let text = match ciphers[i].decrypt(dn.text.as_str()) {
        Ok(s) => s,
        Err(e) => return Err(Error::Crypto(e)),
    };
    match local {
        Some(n) => {
            let text = if n.state == ModelState::Modified {
                let marked = crate::text::joined(text.as_str(), "\n___CONFLICT_RESOLVING___\n");
                crate::text::joined(marked.as_str(), n.text.as_str())
            } else {
                text
            };
            Ok(RemoteNotePlan::Update { local_id: n.local_id(), name, text, commit: rn.commit, state: n.state })
        },
        None => Ok(RemoteNotePlan::Create { name, text, commit: rn.commit }),
    }
}

} // verus!

verus! {

/// What to push for a local folder.
pub enum LocalFolderPlan {
    /// It was deleted locally: delete it on the server, then locally.
    DeleteRemote(RemoteId),
    /// It is on the server under this id: push its notes.
    Existing(RemoteId),
    /// It is not on the server yet: create it there, then push its notes.
    CreateRemote,
}

/// What to push for the local folder `folder`.
pub fn plan_local_folder(folder: &Folder) -> (r: Result<LocalFolderPlan, Error>)
    ensures
        match (folder.state, folder.remote_id) {
            (ModelState::Deleted, None) => (r matches Err(Error::Unreachable(m)) && m@ == "Deleted folder without a remote id cannot exist"@),
            (ModelState::Deleted, Some(id)) => (r matches Ok(LocalFolderPlan::DeleteRemote(rid)) && rid == RemoteId(id)),
            (_, Some(id)) => (r matches Ok(LocalFolderPlan::Existing(rid)) && rid == RemoteId(id)),
            (_, None) => r matches Ok(LocalFolderPlan::CreateRemote),
        },
{
    match folder.remote_id() {
        None => if folder.state == ModelState::Deleted {
            Err(Error::Unreachable(String::from_str("Deleted folder without a remote id cannot exist")))
        } else {
            Ok(LocalFolderPlan::CreateRemote)
        },
        Some(id) => if folder.state == ModelState::Deleted {
            Ok(LocalFolderPlan::DeleteRemote(id))
        } else {
            Ok(LocalFolderPlan::Existing(id))
        },
    }
}

/// What to push for a local note.
pub enum LocalNotePlan {
    /// It was deleted locally: delete it on the server, then locally.
    DeleteRemote(RemoteId),
    /// The server already has it as it is.
    Skip,
    /// Send its new text to the server copy, which it last saw at this commit.
    Update(RemoteId, i32),
    /// Create it on the server.
    Create,
}

/// What to push for the local note `note`.
pub fn plan_local_note(note: &Note) -> (r: Result<LocalNotePlan, Error>)
    ensures
        match (note.state, note.remote_id) {
            (ModelState::Deleted, None) => (r matches Err(Error::Unreachable(m)) && m@ == "Deleted note without a remote id cannot exist"@),
            (ModelState::Deleted, Some(id)) => (r matches Ok(LocalNotePlan::DeleteRemote(rid)) && rid == RemoteId(id)),
            (ModelState::Modified, Some(id)) => (r matches Ok(LocalNotePlan::Update(rid, c)) && rid == RemoteId(id) && c == note.commit),
            (ModelState::Clean, Some(_)) => r matches Ok(LocalNotePlan::Skip),
            (_, None) => r matches Ok(LocalNotePlan::Create),
        },
{
    match note.remote_id() {
        None => if note.state == ModelState::Deleted {
            Err(Error::Unreachable(String::from_str("Deleted note without a remote id cannot exist")))
        } else {
            Ok(LocalNotePlan::Create)
        },
        Some(id) => if note.state == ModelState::Deleted {
            Ok(LocalNotePlan::DeleteRemote(id))
        } else if note.state != ModelState::Modified {
            Ok(LocalNotePlan::Skip)
        } else {
            Ok(LocalNotePlan::Update(id, note.commit))
        },
    }
}

/// A folder's name sealed for each known device, in the order of `ciphers`;
/// or `Encrypt` where sealing fails for one of them.
pub fn seal_folder_name(ciphers: &[DeviceCipher], name: &str) -> (r: Result<Vec<CreateFolderRequest>, crypto::Error>)
    requires
        crypto::sealable(name@),
    ensures
        r is Ok <==> forall|i: int| 0 <= i < ciphers@.len() ==> (#[trigger] crypto::sealed_text(ciphers@[i].key(), name@)) is Some,
        r matches Err(e) ==> e == crypto::Error::Encrypt,
        crypto::full_keys(ciphers@) && crypto::within_limit(name@) ==> r is Ok,
        r matches Ok(reqs) ==> {
            &&& reqs@.len() == ciphers@.len()
            &&& forall|i: int| 0 <= i < reqs@.len() ==> {
                &&& #[trigger] reqs@[i].device_id == ciphers@[i].id()
                &&& crypto::sealed_text(ciphers@[i].key(), name@) == Some(reqs@[i].name@)
            }
        },
{
    let mut reqs: Vec<CreateFolderRequest> = Vec::new();
    let mut i: usize = 0;
    while i < ciphers.len()
        invariant
            crypto::sealable(name@),
            i <= ciphers@.len(),
            reqs@.len() == i,
            forall|k: int| 0 <= k < i ==> {
                &&& #[trigger] reqs@[k].device_id == ciphers@[k].id()
                &&& crypto::sealed_text(ciphers@[k].key(), name@) == Some(reqs@[k].name@)
            },
        decreases ciphers@.len() - i,
    {
        match ciphers[i].encrypt(name) {
            Ok(sealed) => reqs.push(CreateFolderRequest { name: sealed, device_id: ciphers[i].device_id() }),
            Err(e) => return Err(e),
        }
        i = i + 1;
    }
    assert forall|j: int| 0 <= j < ciphers@.len() implies (#[trigger] crypto::sealed_text(ciphers@[j].key(), name@)) is Some by {
        assert(reqs@[j].device_id == ciphers@[j].id());
    }
    Ok(reqs)
}

/// A note's name and text sealed for each known device, in the order of
/// `ciphers`; or `Encrypt` where sealing fails for one of them.
pub fn seal_note(ciphers: &[DeviceCipher], name: &str, text: &str) -> (r: Result<Vec<CreateNoteRequest>, crypto::Error>)
    requires
        crypto::sealable(name@),
        crypto::sealable(text@),
    ensures
        r is Ok <==> forall|i: int| 0 <= i < ciphers@.len() ==> {
            &&& (#[trigger] crypto::sealed_text(ciphers@[i].key(), name@)) is Some
            &&& crypto::sealed_text(ciphers@[i].key(), text@) is Some
        },
        r matches Err(e) ==> e == crypto::Error::Encrypt,
        crypto::full_keys(ciphers@) && crypto::within_limit(name@) && crypto::within_limit(text@) ==> r is Ok,
        r matches Ok(reqs) ==> {
            &&& reqs@.len() == ciphers@.len()
            &&& forall|i: int| 0 <= i < reqs@.len() ==> {
                &&& #[trigger] reqs@[i].device_id == ciphers@[i].id()
                &&& crypto::sealed_text(ciphers@[i].key(), name@) == Some(reqs@[i].name@)
                &&& crypto::sealed_text(ciphers@[i].key(), text@) == Some(reqs@[i].text@)
            }
        },
{
    let mut reqs: Vec<CreateNoteRequest> = Vec::new();
    let mut i: usize = 0;
    while i < ciphers.len()
        invariant
            crypto::sealable(name@),
            crypto::sealable(text@),
            i <= ciphers@.len(),
            reqs@.len() == i,
            forall|k: int| 0 <= k < i ==> {
                &&& #[trigger] reqs@[k].device_id == ciphers@[k].id()
                &&& crypto::sealed_text(ciphers@[k].key(), name@) == Some(reqs@[k].name@)
                &&& crypto::sealed_text(ciphers@[k].key(), text@) == Some(reqs@[k].text@)
            },
        decreases ciphers@.len() - i,
    {
        let sealed_name = match ciphers[i].encrypt(name) {
            Ok(s) => s,
            Err(e) => return Err(e),
        };
        let sealed_text = match ciphers[i].encrypt(text) {
            Ok(s) => s,
            Err(e) => return Err(e),
        };
        reqs.push(CreateNoteRequest { name: sealed_name, text: sealed_text, device_id: ciphers[i].device_id() });
        i = i + 1;
    }
    assert forall|j: int| 0 <= j < ciphers@.len() implies {
        &&& (#[trigger] crypto::sealed_text(ciphers@[j].key(), name@)) is Some
        &&& crypto::sealed_text(ciphers@[j].key(), text@) is Some
    } by {
        assert(reqs@[j].device_id == ciphers@[j].id());
    }
    Ok(reqs)
}

} // verus!

verus! {

/// The known devices that asked for a sealed copy of one folder or note:
/// positions in the list of sealing channels, each at most once.
pub struct RequestGroup {
    pub item_id: i32,
    pub ciphers: Vec<usize>,
}

/// Whether one of `pairs` (item id, device id) asks for a copy of `item` for
/// the device whose first channel is at `idx`.
pub open spec fn requested(pairs: Seq<(i32, i32)>, ciphers: Seq<DeviceCipher>, item: i32, idx: usize) -> bool {
    exists|p: int| 0 <= p < pairs.len() && (#[trigger] pairs[p]).0 == item && first_cipher_for(ciphers, pairs[p].1) == Some(idx as int)
}

/// Whether `groups` holds the channel at `idx` for `item`.
pub open spec fn grouped(groups: Seq<RequestGroup>, item: i32, idx: usize) -> bool {
    exists|g: int| 0 <= g < groups.len() && (#[trigger] groups[g]).item_id == item && groups[g].ciphers@.contains(idx)
}

/// Groups hold distinct items, and each group distinct channels, at least one.
pub open spec fn groups_wf(groups: Seq<RequestGroup>) -> bool {
    &&& forall|a: int, b: int| 0 <= a < b < groups.len() ==> (#[trigger] groups[a]).item_id != (#[trigger] groups[b]).item_id
    &&& forall|g: int| 0 <= g < groups.len() ==> (#[trigger] groups[g]).ciphers@.len() > 0 && groups[g].ciphers@.no_duplicates()
}

fn find_group(groups: &Vec<RequestGroup>, item: i32) -> (r: Option<usize>)
    ensures
        match r {
            Some(g) => g < groups@.len() && groups@[g as int].item_id == item,
            None => forall|g: int| 0 <= g < groups@.len() ==> (#[trigger] groups@[g]).item_id != item,
        },
{
    let mut g: usize = 0;
    while g < groups.len()
        invariant
            g <= groups@.len(),
            forall|k: int| 0 <= k < g ==> (#[trigger] groups@[k]).item_id != item,
        decreases groups@.len() - g,
    {
        if groups[g].item_id == item {
            return Some(g);
        }
        g = g + 1;
    }
    None
}

fn contains_index(v: &Vec<usize>, x: usize) -> (r: bool)
    ensures
        r == v@.contains(x),
{
    let mut i: usize = 0;
    while i < v.len()
        invariant
            i <= v@.len(),
            forall|k: int| 0 <= k < i ==> v@[k] != x,
        decreases v@.len() - i,
    {
        if v[i] == x {
            return true;
        }
        i = i + 1;
    }
    false
}

/// Groups the requests `pairs` (item id, device id) by item: for each item,
/// the channels of the known devices that asked for it. Requests of unknown
/// devices are dropped; a device that asked twice counts once.
pub fn group_requests(ciphers: &[DeviceCipher], pairs: &[(i32, i32)]) -> (groups: Vec<RequestGroup>)
    ensures
        groups_wf(groups@),
        forall|item: i32, idx: usize| grouped(groups@, item, idx) <==> requested(pairs@, ciphers@, item, idx),
        forall|g: int, k: int| 0 <= g < groups@.len() && 0 <= k < groups@[g].ciphers@.len()
            ==> (#[trigger] groups@[g].ciphers@[k]) < ciphers@.len(),
{
    let mut groups: Vec<RequestGroup> = Vec::new();
    let mut i: usize = 0;
    while i < pairs.len()
        invariant
            i <= pairs@.len(),
            groups_wf(groups@),
            forall|item: i32, idx: usize| grouped(groups@, item, idx) <==> requested(pairs@.take(i as int), ciphers@, item, idx),
            forall|g: int, k: int| 0 <= g < groups@.len() && 0 <= k < groups@[g].ciphers@.len()
                ==> (#[trigger] groups@[g].ciphers@[k]) < ciphers@.len(),
        decreases pairs@.len() - i,
    {
        let (item, device) = pairs[i];
        let ghost before = groups@;
        let ghost old_pairs = pairs@.take(i as int);
        let ghost new_pairs = pairs@.take(i + 1);
        assert(new_pairs =~= old_pairs.push((item, device)));
        match find_cipher(ciphers, device) {
            None => {
                assert forall|it: i32, idx: usize| requested(new_pairs, ciphers@, it, idx) <==> requested(old_pairs, ciphers@, it, idx) by {
                    if requested(new_pairs, ciphers@, it, idx) {
                        let p = choose|p: int| 0 <= p < new_pairs.len() && (#[trigger] new_pairs[p]).0 == it && first_cipher_for(ciphers@, new_pairs[p].1) == Some(idx as int);
                        assert(p < old_pairs.len());
                        assert(old_pairs[p] == new_pairs[p]);
                    }
                    if requested(old_pairs, ciphers@, it, idx) {
                        let p = choose|p: int| 0 <= p < old_pairs.len() && (#[trigger] old_pairs[p]).0 == it && first_cipher_for(ciphers@, old_pairs[p].1) == Some(idx as int);
                        assert(new_pairs[p] == old_pairs[p]);
                    }
                }
            },
            Some(c) => {
                assert forall|it: i32, idx: usize| requested(new_pairs, ciphers@, it, idx) <==> (requested(old_pairs, ciphers@, it, idx) || (it == item && idx == c)) by {
                    if requested(new_pairs, ciphers@, it, idx) {
                        let p = choose|p: int| 0 <= p < new_pairs.len() && (#[trigger] new_pairs[p]).0 == it && first_cipher_for(ciphers@, new_pairs[p].1) == Some(idx as int);
                        if p < old_pairs.len() {
                            assert(old_pairs[p] == new_pairs[p]);
                        }
                    }
                    if requested(old_pairs, ciphers@, it, idx) {
                        let p = choose|p: int| 0 <= p < old_pairs.len() && (#[trigger] old_pairs[p]).0 == it && first_cipher_for(ciphers@, old_pairs[p].1) == Some(idx as int);
                        assert(new_pairs[p] == old_pairs[p]);
                    }
                    if it == item && idx == c {
                        assert(new_pairs[old_pairs.len() as int] == (item, device));
                    }
                }
                match find_group(&groups, item) {
                    None => {
                        let members: Vec<usize> = vec![c];
                        assert(members@ =~= seq![c]);
                        groups.push(RequestGroup { item_id: item, ciphers: members });
                        assert forall|it: i32, idx: usize| grouped(groups@, it, idx) <==> (grouped(before, it, idx) || (it == item && idx == c)) by {
                            if grouped(groups@, it, idx) {
                                let g = choose|g: int| 0 <= g < groups@.len() && (#[trigger] groups@[g]).item_id == it && groups@[g].ciphers@.contains(idx);
                                if g < before.len() {
                                    assert(before[g] == groups@[g]);
                                } else {
                                    assert(groups@[g].ciphers@ == seq![c]);
                                    assert(groups@[g].ciphers@[0] == c);
                                }
                            }
                            if grouped(before, it, idx) {
                                let g = choose|g: int| 0 <= g < before.len() && (#[trigger] before[g]).item_id == it && before[g].ciphers@.contains(idx);
                                assert(groups@[g] == before[g]);
                            }
                            if it == item && idx == c {
                                let last = before.len() as int;
                                assert(groups@[last].ciphers@[0] == c);
                                assert(groups@[last].ciphers@.contains(c));
                            }
                        }
                        assert forall|a: int, b: int| 0 <= a < b < groups@.len() implies (#[trigger] groups@[a]).item_id != (#[trigger] groups@[b]).item_id by {
                            if b < before.len() {
                                assert(groups@[a] == before[a] && groups@[b] == before[b]);
                            } else {
                                assert(groups@[a] == before[a]);
                            }
                        }
                        assert forall|g: int| 0 <= g < groups@.len() implies (#[trigger] groups@[g]).ciphers@.len() > 0 && groups@[g].ciphers@.no_duplicates() by {
                            if g < before.len() {
                                assert(groups@[g] == before[g]);
                            }
                        }
                        assert forall|g: int, k: int| 0 <= g < groups@.len() && 0 <= k < groups@[g].ciphers@.len()
                            implies (#[trigger] groups@[g].ciphers@[k]) < ciphers@.len() by {
                            if g < before.len() {
                                assert(groups@[g] == before[g]);
                            }
                        }
                    },
                    Some(gi) => {
                        if !contains_index(&groups[gi].ciphers, c) {
                            let mut members = groups[gi].ciphers.clone();
                            assert(members@ =~= groups@[gi as int].ciphers@);
                            members.push(c);
                            let ghost old_members = groups@[gi as int].ciphers@;
                            groups.set(gi, RequestGroup { item_id: item, ciphers: members });
                            assert forall|it: i32, idx: usize| grouped(groups@, it, idx) <==> (grouped(before, it, idx) || (it == item && idx == c)) by {
                                if grouped(groups@, it, idx) {
                                    let g = choose|g: int| 0 <= g < groups@.len() && (#[trigger] groups@[g]).item_id == it && groups@[g].ciphers@.contains(idx);
                                    if g != gi {
                                        assert(before[g] == groups@[g]);
                                    } else if idx != c {
                                        let k = choose|k: int| 0 <= k < groups@[g].ciphers@.len() && groups@[g].ciphers@[k] == idx;
                                        assert(old_members[k] == idx);
                                        assert(before[g].ciphers@.contains(idx));
                                    }
                                }
                                if grouped(before, it, idx) {
                                    let g = choose|g: int| 0 <= g < before.len() && (#[trigger] before[g]).item_id == it && before[g].ciphers@.contains(idx);
                                    if g != gi {
                                        assert(groups@[g] == before[g]);
                                    } else {
                                        let k = choose|k: int| 0 <= k < old_members.len() && old_members[k] == idx;
                                        assert(groups@[g].ciphers@[k] == idx);
                                    }
                                }
                                if it == item && idx == c {
                                    assert(groups@[gi as int].ciphers@[old_members.len() as int] == c);
                                }
                            }
                            assert forall|a: int, b: int| 0 <= a < b < groups@.len() implies (#[trigger] groups@[a]).item_id != (#[trigger] groups@[b]).item_id by {
                                assert(groups@[a].item_id == before[a].item_id && groups@[b].item_id == before[b].item_id);
                            }
                            assert forall|g: int| 0 <= g < groups@.len() implies (#[trigger] groups@[g]).ciphers@.len() > 0 && groups@[g].ciphers@.no_duplicates() by {
                                if g != gi {
                                    assert(groups@[g] == before[g]);
                                } else {
                                    assert(before[g].ciphers@.no_duplicates());
                                    assert forall|x: int, y: int| 0 <= x < y < groups@[g].ciphers@.len() implies groups@[g].ciphers@[x] != groups@[g].ciphers@[y] by {
                                        if y == old_members.len() {
                                            assert(!old_members.contains(c));
                                            assert(old_members[x] == groups@[g].ciphers@[x]);
                                        } else {
                                            assert(old_members[x] == groups@[g].ciphers@[x]);
                                            assert(old_members[y] == groups@[g].ciphers@[y]);
                                        }
                                    }
                                }
                            }
                            assert forall|g: int, k: int| 0 <= g < groups@.len() && 0 <= k < groups@[g].ciphers@.len()
                                implies (#[trigger] groups@[g].ciphers@[k]) < ciphers@.len() by {
                                if g != gi {
                                    assert(groups@[g] == before[g]);
                                } else if k < old_members.len() {
                                    assert(groups@[g].ciphers@[k] == before[g].ciphers@[k]);
                                }
                            }
                        } else {
                            assert forall|it: i32, idx: usize| (it == item && idx == c) implies grouped(before, it, idx) by {
                                assert(before[gi as int].item_id == item);
                                assert(before[gi as int].ciphers@.contains(c));
                            }
                        }
                    },
                }
            },
        }
        assert forall|it: i32, idx: usize| grouped(groups@, it, idx) <==> requested(new_pairs, ciphers@, it, idx) by {
            assert(grouped(before, it, idx) <==> requested(old_pairs, ciphers@, it, idx));
        }
        i = i + 1;
    }
    assert(pairs@.take(pairs@.len() as int) =~= pairs@);
    groups
}

} // verus!

verus! {

/// The contents of a list of answers.
pub open spec fn answers_view(rs: Seq<RespondRequests>) -> Seq<mavinote::requests::ResponseView> {
    rs.map_values(|r: RespondRequests| r@)
}

/// The position of the first answer to `device`, if any.
pub open spec fn device_slot(vs: Seq<mavinote::requests::ResponseView>, device: i32) -> Option<int> {
    if exists|k: int| 0 <= k < vs.len() && vs[k].device_id == device {
        Some(choose|k: int| 0 <= k < vs.len() && vs[k].device_id == device
            && forall|j: int| 0 <= j < k ==> vs[j].device_id != device)
    } else {
        None
    }
}

/// The answers with the folder copy `entry` added to the answer to `device`,
/// which is begun if there is none.
pub open spec fn with_folder(vs: Seq<mavinote::requests::ResponseView>, device: i32, entry: (i32, Seq<char>)) -> Seq<mavinote::requests::ResponseView> {
    match device_slot(vs, device) {
        Some(k) => vs.update(k, mavinote::requests::ResponseView { device_id: vs[k].device_id, folders: vs[k].folders.push(entry), notes: vs[k].notes }),
        None => vs.push(mavinote::requests::ResponseView { device_id: device, folders: seq![entry], notes: seq![] }),
    }
}

/// The answers with the note copy `entry` added to the answer to `device`,
/// which is begun if there is none.
pub open spec fn with_note(vs: Seq<mavinote::requests::ResponseView>, device: i32, entry: (i32, Seq<char>, Seq<char>)) -> Seq<mavinote::requests::ResponseView> {
    match device_slot(vs, device) {
        Some(k) => vs.update(k, mavinote::requests::ResponseView { device_id: vs[k].device_id, folders: vs[k].folders, notes: vs[k].notes.push(entry) }),
        None => vs.push(mavinote::requests::ResponseView { device_id: device, folders: seq![], notes: seq![entry] }),
    }
}

/// The text that sealing `message` under `key` gives (empty where it fails).
pub open spec fn sealed_or_empty(key: Seq<u8>, message: Seq<char>) -> Seq<char> {
    match crypto::sealed_text(key, message) {
        Some(t) => t,
        None => seq![],
    }
}

/// The answers after a copy of folder `folder_id` named `name` is sealed for
/// each device whose channel position is in `idxs`, in that order.
pub open spec fn folder_answers(vs: Seq<mavinote::requests::ResponseView>, ciphers: Seq<DeviceCipher>, folder_id: i32, name: Seq<char>, idxs: Seq<usize>) -> Seq<mavinote::requests::ResponseView>
    decreases idxs.len(),
{
    if idxs.len() == 0 {
        vs
    } else {
        let c = ciphers[idxs.last() as int];
        with_folder(folder_answers(vs, ciphers, folder_id, name, idxs.drop_last()), c.id(), (folder_id, sealed_or_empty(c.key(), name)))
    }
}

/// The answers after a copy of note `note_id` with `name` and `text` is
/// sealed for each device whose channel position is in `idxs`, in that order.
pub open spec fn note_answers(vs: Seq<mavinote::requests::ResponseView>, ciphers: Seq<DeviceCipher>, note_id: i32, name: Seq<char>, text: Seq<char>, idxs: Seq<usize>) -> Seq<mavinote::requests::ResponseView>
    decreases idxs.len(),
{
    if idxs.len() == 0 {
        vs
    } else {
        let c = ciphers[idxs.last() as int];
        with_note(note_answers(vs, ciphers, note_id, name, text, idxs.drop_last()), c.id(),
            (note_id, sealed_or_empty(c.key(), name), sealed_or_empty(c.key(), text)))
    }
}

fn find_slot(responses: &Vec<RespondRequests>, device: i32) -> (r: Option<usize>)
    ensures
        match r {
            Some(k) => device_slot(answers_view(responses@), device) == Some(k as int) && k < responses@.len(),
            None => device_slot(answers_view(responses@), device) is None,
        },
{
    let ghost vs = answers_view(responses@);
    let mut k: usize = 0;
    while k < responses.len()
        invariant
            vs == answers_view(responses@),
            k <= responses@.len(),
            forall|j: int| 0 <= j < k ==> vs[j].device_id != device,
        decreases responses@.len() - k,
    {
        if responses[k].device_id == device {
            proof {
                assert(vs[k as int].device_id == device);
                let c = choose|c: int| 0 <= c < vs.len() && vs[c].device_id == device
                    && forall|j: int| 0 <= j < c ==> vs[j].device_id != device;
                assert(c == k) by {
                    if c > k {
                        assert(vs[k as int].device_id == device);
                    }
                }
            }
            return Some(k);
        }
        k = k + 1;
    }
    proof {
        assert forall|j: int| 0 <= j < vs.len() implies vs[j].device_id != device by {
            assert(vs[j] == responses@[j]@);
        }
    }
    None
}

fn add_folder_answer(responses: &mut Vec<RespondRequests>, device: i32, entry: RespondFolderRequest)
    ensures
        answers_view(final(responses)@) == with_folder(answers_view(old(responses)@), device, entry@),
{
    let ghost before = answers_view(responses@);
    let ghost e = entry@;
    match find_slot(responses, device) {
        Some(s) => {
            let mut answer = responses.remove(s);
            let ghost folders_before = answer.folders@;
            answer.folders.push(entry);
            assert(answer.folders@.map_values(|f: RespondFolderRequest| f@) =~= folders_before.map_values(|f: RespondFolderRequest| f@).push(e));
            responses.insert(s, answer);
            assert(answers_view(responses@) =~= with_folder(before, device, e));
        },
        None => {
            let mut folders: Vec<RespondFolderRequest> = Vec::new();
            folders.push(entry);
            let answer = RespondRequests { device_id: device, folders, notes: Vec::new() };
            assert(answer@.folders =~= seq![e]);
            assert(answer@.notes =~= Seq::<(i32, Seq<char>, Seq<char>)>::empty());
            responses.push(answer);
            assert(answers_view(responses@) =~= with_folder(before, device, e));
        },
    }
}

/// Adds a copy of the folder `folder_id` named `name`, sealed for each
/// device whose channel position is in `idxs`, to the answer to that device.
/// Where sealing fails for one of them, nothing is added.
pub fn answer_folder_request(responses: &mut Vec<RespondRequests>, ciphers: &[DeviceCipher], folder_id: i32, idxs: &[usize], name: &str) -> (r: Result<(), crypto::Error>)
    requires
        crypto::sealable(name@),
        forall|k: int| 0 <= k < idxs@.len() ==> (#[trigger] idxs@[k]) < ciphers@.len(),
    ensures
        r is Ok <==> forall|k: int| 0 <= k < idxs@.len() ==> (#[trigger] crypto::sealed_text(ciphers@[idxs@[k] as int].key(), name@)) is Some,
        crypto::full_keys(ciphers@) && crypto::within_limit(name@) ==> r is Ok,
        r is Ok ==> answers_view(final(responses)@) == folder_answers(answers_view(old(responses)@), ciphers@, folder_id, name@, idxs@),
        r is Err ==> final(responses)@ == old(responses)@,
{
    let mut sealed: Vec<String> = Vec::new();
    let mut k: usize = 0;
    while k < idxs.len()
        invariant
            crypto::sealable(name@),
            forall|j: int| 0 <= j < idxs@.len() ==> (#[trigger] idxs@[j]) < ciphers@.len(),
            k <= idxs@.len(),
            sealed@.len() == k,
            forall|j: int| 0 <= j < k ==> crypto::sealed_text(ciphers@[idxs@[j] as int].key(), name@) == Some((#[trigger] sealed@[j])@),
        decreases idxs@.len() - k,
    {
        match ciphers[idxs[k]].encrypt(name) {
            Ok(s) => sealed.push(s),
            Err(e) => return Err(e),
        }
        k = k + 1;
    }
    assert forall|j: int| 0 <= j < idxs@.len() implies (#[trigger] crypto::sealed_text(ciphers@[idxs@[j] as int].key(), name@)) is Some by {
        assert(crypto::sealed_text(ciphers@[idxs@[j] as int].key(), name@) == Some(sealed@[j]@));
    }
    let ghost start = answers_view(responses@);
    let mut k: usize = 0;
    while k < idxs.len()
        invariant
            forall|j: int| 0 <= j < idxs@.len() ==> (#[trigger] idxs@[j]) < ciphers@.len(),
            k <= idxs@.len(),
            sealed@.len() == idxs@.len(),
            forall|j: int| 0 <= j < idxs@.len() ==> crypto::sealed_text(ciphers@[idxs@[j] as int].key(), name@) == Some((#[trigger] sealed@[j])@),
            answers_view(responses@) == folder_answers(start, ciphers@, folder_id, name@, idxs@.take(k as int)),
        decreases idxs@.len() - k,
    {
        let c = &ciphers[idxs[k]];
        let entry = RespondFolderRequest { folder_id, name: sealed[k].clone() };
        assert(entry@ == (folder_id, sealed_or_empty(c.key(), name@)));
        add_folder_answer(responses, c.device_id(), entry);
        assert(idxs@.take(k + 1).drop_last() =~= idxs@.take(k as int));
        k = k + 1;
    }
    assert(idxs@.take(idxs@.len() as int) =~= idxs@);
    Ok(())
}

} // verus!

verus! {

fn add_note_answer(responses: &mut Vec<RespondRequests>, device: i32, entry: RespondNoteRequest)
    ensures
        answers_view(final(responses)@) == with_note(answers_view(old(responses)@), device, entry@),
{
    let ghost before = answers_view(responses@);
    let ghost e = entry@;
    match find_slot(responses, device) {
        Some(s) => {
            let mut answer = responses.remove(s);
            let ghost notes_before = answer.notes@;
            answer.notes.push(entry);
            assert(answer.notes@.map_values(|n: RespondNoteRequest| n@) =~= notes_before.map_values(|n: RespondNoteRequest| n@).push(e));
            responses.insert(s, answer);
            assert(answers_view(responses@) =~= with_note(before, device, e));
        },
        None => {
            let mut notes: Vec<RespondNoteRequest> = Vec::new();
            notes.push(entry);
            let answer = RespondRequests { device_id: device, folders: Vec::new(), notes };
            assert(answer@.notes =~= seq![e]);
            assert(answer@.folders =~= Seq::<(i32, Seq<char>)>::empty());
            responses.push(answer);
            assert(answers_view(responses@) =~= with_note(before, device, e));
        },
    }
}

/// Adds a copy of the note `note_id` with `name` and `text`, sealed for each
/// device whose channel position is in `idxs`, to the answer to that device.
/// Where sealing fails for one of them, nothing is added.
pub fn answer_note_request(responses: &mut Vec<RespondRequests>, ciphers: &[DeviceCipher], note_id: i32, idxs: &[usize], name: &str, text: &str) -> (r: Result<(), crypto::Error>)
    requires
        crypto::sealable(name@),
        crypto::sealable(text@),
        forall|k: int| 0 <= k < idxs@.len() ==> (#[trigger] idxs@[k]) < ciphers@.len(),
    ensures
        r is Ok <==> forall|k: int| 0 <= k < idxs@.len() ==> {
            &&& (#[trigger] crypto::sealed_text(ciphers@[idxs@[k] as int].key(), name@)) is Some
            &&& crypto::sealed_text(ciphers@[idxs@[k] as int].key(), text@) is Some
        },
        crypto::full_keys(ciphers@) && crypto::within_limit(name@) && crypto::within_limit(text@) ==> r is Ok,
        r is Ok ==> answers_view(final(responses)@) == note_answers(answers_view(old(responses)@), ciphers@, note_id, name@, text@, idxs@),
        r is Err ==> final(responses)@ == old(responses)@,
{
    let mut sealed: Vec<(String, String)> = Vec::new();
    let mut k: usize = 0;
    while k < idxs.len()
        invariant
            crypto::sealable(name@),
            crypto::sealable(text@),
            forall|j: int| 0 <= j < idxs@.len() ==> (#[trigger] idxs@[j]) < ciphers@.len(),
            k <= idxs@.len(),
            sealed@.len() == k,
            forall|j: int| 0 <= j < k ==> {
                &&& crypto::sealed_text(ciphers@[idxs@[j] as int].key(), name@) == Some((#[trigger] sealed@[j]).0@)
                &&& crypto::sealed_text(ciphers@[idxs@[j] as int].key(), text@) == Some(sealed@[j].1@)
            },
        decreases idxs@.len() - k,
    {
        let n = match ciphers[idxs[k]].encrypt(name) {
            Ok(s) => s,
            Err(e) => return Err(e),
        };
        let t = match ciphers[idxs[k]].encrypt(text) {
            Ok(s) => s,
            Err(e) => return Err(e),
        };
        sealed.push((n, t));
        k = k + 1;
    }
    assert forall|j: int| 0 <= j < idxs@.len() implies {
        &&& (#[trigger] crypto::sealed_text(ciphers@[idxs@[j] as int].key(), name@)) is Some
        &&& crypto::sealed_text(ciphers@[idxs@[j] as int].key(), text@) is Some
    } by {
        assert(crypto::sealed_text(ciphers@[idxs@[j] as int].key(), name@) == Some(sealed@[j].0@));
    }
    let ghost start = answers_view(responses@);
    let mut k: usize = 0;
    while k < idxs.len()
        invariant
            forall|j: int| 0 <= j < idxs@.len() ==> (#[trigger] idxs@[j]) < ciphers@.len(),
            k <= idxs@.len(),
            sealed@.len() == idxs@.len(),
            forall|j: int| 0 <= j < idxs@.len() ==> {
                &&& crypto::sealed_text(ciphers@[idxs@[j] as int].key(), name@) == Some((#[trigger] sealed@[j]).0@)
                &&& crypto::sealed_text(ciphers@[idxs@[j] as int].key(), text@) == Some(sealed@[j].1@)
            },
            answers_view(responses@) == note_answers(start, ciphers@, note_id, name@, text@, idxs@.take(k as int)),
        decreases idxs@.len() - k,
    {
        let c = &ciphers[idxs[k]];
        let entry = RespondNoteRequest { note_id, name: sealed[k].0.clone(), text: sealed[k].1.clone() };
        assert(entry@ == (note_id, sealed_or_empty(c.key(), name@), sealed_or_empty(c.key(), text@)));
        add_note_answer(responses, c.device_id(), entry);
        assert(idxs@.take(k + 1).drop_last() =~= idxs@.take(k as int));
        k = k + 1;
    }
    assert(idxs@.take(idxs@.len() as int) =~= idxs@);
    Ok(())
}

} // verus!

verus! {

/// No two answers go to the same device.
pub open spec fn answers_distinct(vs: Seq<mavinote::requests::ResponseView>) -> bool {
    forall|a: int, b: int| 0 <= a < b < vs.len() ==> (#[trigger] vs[a]).device_id != (#[trigger] vs[b]).device_id
}

proof fn lemma_first_slot_exists(vs: Seq<mavinote::requests::ResponseView>, device: i32, k: int)
    requires
        0 <= k < vs.len(),
        vs[k].device_id == device,
    ensures
        exists|f: int| 0 <= f < vs.len() && vs[f].device_id == device
            && forall|j: int| 0 <= j < f ==> vs[j].device_id != device,
    decreases k,
{
    if exists|j: int| 0 <= j < k && vs[j].device_id == device {
        let j = choose|j: int| 0 <= j < k && vs[j].device_id == device;
        lemma_first_slot_exists(vs, device, j);
    } else {
        assert(forall|j: int| 0 <= j < k ==> vs[j].device_id != device);
    }
}

/// A device's answer is found: where some answer is to the device, the
/// position given is the first such answer; otherwise no answer is to it.
pub proof fn lemma_slot(vs: Seq<mavinote::requests::ResponseView>, device: i32)
    ensures
        match device_slot(vs, device) {
            Some(k) => 0 <= k < vs.len() && vs[k].device_id == device
                && forall|j: int| 0 <= j < k ==> (#[trigger] vs[j]).device_id != device,
            None => forall|j: int| 0 <= j < vs.len() ==> (#[trigger] vs[j]).device_id != device,
        },
{
    if exists|k: int| 0 <= k < vs.len() && vs[k].device_id == device {
        let k = choose|k: int| 0 <= k < vs.len() && vs[k].device_id == device;
        lemma_first_slot_exists(vs, device, k);
    }
}

proof fn lemma_with_folder_keeps(vs: Seq<mavinote::requests::ResponseView>, device: i32, e: (i32, Seq<char>))
    ensures
        with_folder(vs, device, e).len() >= vs.len(),
        forall|s: int| 0 <= s < vs.len() ==> {
            &&& (#[trigger] with_folder(vs, device, e)[s]).device_id == vs[s].device_id
            &&& forall|x: (i32, Seq<char>)| vs[s].folders.contains(x) ==> with_folder(vs, device, e)[s].folders.contains(x)
            &&& forall|x: (i32, Seq<char>, Seq<char>)| vs[s].notes.contains(x) ==> with_folder(vs, device, e)[s].notes.contains(x)
        },
        exists|s: int| 0 <= s < with_folder(vs, device, e).len()
            && (#[trigger] with_folder(vs, device, e)[s]).device_id == device
            && with_folder(vs, device, e)[s].folders.contains(e),
        answers_distinct(vs) ==> answers_distinct(with_folder(vs, device, e)),
{
    lemma_slot(vs, device);
    let w = with_folder(vs, device, e);
    match device_slot(vs, device) {
        Some(k) => {
            assert forall|s: int| 0 <= s < vs.len() implies {
                &&& (#[trigger] w[s]).device_id == vs[s].device_id
                &&& forall|x: (i32, Seq<char>)| vs[s].folders.contains(x) ==> w[s].folders.contains(x)
                &&& forall|x: (i32, Seq<char>, Seq<char>)| vs[s].notes.contains(x) ==> w[s].notes.contains(x)
            } by {
                if s == k {
                    assert forall|x: (i32, Seq<char>)| vs[s].folders.contains(x) implies w[s].folders.contains(x) by {
                        let i = choose|i: int| 0 <= i < vs[s].folders.len() && vs[s].folders[i] == x;
                        assert(w[s].folders[i] == x);
                    }
                }
            }
            assert(w[k].folders[w[k].folders.len() - 1] == e);
        },
        None => {
            assert(w[vs.len() as int].folders[0] == e);
        },
    }
}

proof fn lemma_with_note_keeps(vs: Seq<mavinote::requests::ResponseView>, device: i32, e: (i32, Seq<char>, Seq<char>))
    ensures
        with_note(vs, device, e).len() >= vs.len(),
        forall|s: int| 0 <= s < vs.len() ==> {
            &&& (#[trigger] with_note(vs, device, e)[s]).device_id == vs[s].device_id
            &&& forall|x: (i32, Seq<char>)| vs[s].folders.contains(x) ==> with_note(vs, device, e)[s].folders.contains(x)
            &&& forall|x: (i32, Seq<char>, Seq<char>)| vs[s].notes.contains(x) ==> with_note(vs, device, e)[s].notes.contains(x)
        },
        exists|s: int| 0 <= s < with_note(vs, device, e).len()
            && (#[trigger] with_note(vs, device, e)[s]).device_id == device
            && with_note(vs, device, e)[s].notes.contains(e),
        answers_distinct(vs) ==> answers_distinct(with_note(vs, device, e)),
{
    lemma_slot(vs, device);
    let w = with_note(vs, device, e);
    match device_slot(vs, device) {
        Some(k) => {
            assert forall|s: int| 0 <= s < vs.len() implies {
                &&& (#[trigger] w[s]).device_id == vs[s].device_id
                &&& forall|x: (i32, Seq<char>)| vs[s].folders.contains(x) ==> w[s].folders.contains(x)
                &&& forall|x: (i32, Seq<char>, Seq<char>)| vs[s].notes.contains(x) ==> w[s].notes.contains(x)
            } by {
                if s == k {
                    assert forall|x: (i32, Seq<char>, Seq<char>)| vs[s].notes.contains(x) implies w[s].notes.contains(x) by {
                        let i = choose|i: int| 0 <= i < vs[s].notes.len() && vs[s].notes[i] == x;
                        assert(w[s].notes[i] == x);
                    }
                }
            }
            assert(w[k].notes[w[k].notes.len() - 1] == e);
        },
        None => {
            assert(w[vs.len() as int].notes[0] == e);
        },
    }
}

/// Answering a folder request gives each requesting device, in one answer of
/// its own, the folder's name sealed under that device's key; what was
/// already in the answers stays, and no device gets two answers.
pub proof fn lemma_folder_answers_deliver(vs: Seq<mavinote::requests::ResponseView>, ciphers: Seq<DeviceCipher>, folder_id: i32, name: Seq<char>, idxs: Seq<usize>)
    requires
        forall|k: int| 0 <= k < idxs.len() ==> (#[trigger] idxs[k]) < ciphers.len(),
    ensures
        folder_answers(vs, ciphers, folder_id, name, idxs).len() >= vs.len(),
        forall|s: int| 0 <= s < vs.len() ==> {
            &&& (#[trigger] folder_answers(vs, ciphers, folder_id, name, idxs)[s]).device_id == vs[s].device_id
            &&& forall|x: (i32, Seq<char>)| vs[s].folders.contains(x) ==> folder_answers(vs, ciphers, folder_id, name, idxs)[s].folders.contains(x)
        },
        forall|k: int| 0 <= k < idxs.len() ==> exists|s: int| {
            &&& 0 <= s < folder_answers(vs, ciphers, folder_id, name, idxs).len()
            &&& (#[trigger] folder_answers(vs, ciphers, folder_id, name, idxs)[s]).device_id == ciphers[#[trigger] idxs[k] as int].id()
            &&& folder_answers(vs, ciphers, folder_id, name, idxs)[s].folders.contains(
                (folder_id, sealed_or_empty(ciphers[idxs[k] as int].key(), name)))
        },
        answers_distinct(vs) ==> answers_distinct(folder_answers(vs, ciphers, folder_id, name, idxs)),
    decreases idxs.len(),
{
    if idxs.len() > 0 {
        let prev_idxs = idxs.drop_last();
        lemma_folder_answers_deliver(vs, ciphers, folder_id, name, prev_idxs);
        let prev = folder_answers(vs, ciphers, folder_id, name, prev_idxs);
        let c = ciphers[idxs.last() as int];
        let e = (folder_id, sealed_or_empty(c.key(), name));
        lemma_with_folder_keeps(prev, c.id(), e);
        let w = folder_answers(vs, ciphers, folder_id, name, idxs);
        assert(w == with_folder(prev, c.id(), e));
        assert forall|s: int| 0 <= s < vs.len() implies {
            &&& (#[trigger] w[s]).device_id == vs[s].device_id
            &&& forall|x: (i32, Seq<char>)| vs[s].folders.contains(x) ==> w[s].folders.contains(x)
        } by {
            assert(prev[s].device_id == vs[s].device_id);
            assert(w[s].device_id == prev[s].device_id);
        }
        assert forall|k: int| 0 <= k < idxs.len() implies exists|s: int| {
            &&& 0 <= s < w.len()
            &&& (#[trigger] w[s]).device_id == ciphers[#[trigger] idxs[k] as int].id()
            &&& w[s].folders.contains((folder_id, sealed_or_empty(ciphers[idxs[k] as int].key(), name)))
        } by {
            if k < idxs.len() - 1 {
                assert(prev_idxs[k] == idxs[k]);
                let s = choose|s: int| {
                    &&& 0 <= s < prev.len()
                    &&& (#[trigger] prev[s]).device_id == ciphers[prev_idxs[k] as int].id()
                    &&& prev[s].folders.contains((folder_id, sealed_or_empty(ciphers[prev_idxs[k] as int].key(), name)))
                };
                assert(w[s].device_id == prev[s].device_id);
            }
        }
    }
}

/// Answering a note request gives each requesting device, in one answer of
/// its own, the note's name and text sealed under that device's key; what
/// was already in the answers stays, and no device gets two answers.
pub proof fn lemma_note_answers_deliver(vs: Seq<mavinote::requests::ResponseView>, ciphers: Seq<DeviceCipher>, note_id: i32, name: Seq<char>, text: Seq<char>, idxs: Seq<usize>)
    requires
        forall|k: int| 0 <= k < idxs.len() ==> (#[trigger] idxs[k]) < ciphers.len(),
    ensures
        note_answers(vs, ciphers, note_id, name, text, idxs).len() >= vs.len(),
        forall|s: int| 0 <= s < vs.len() ==> {
            &&& (#[trigger] note_answers(vs, ciphers, note_id, name, text, idxs)[s]).device_id == vs[s].device_id
            &&& forall|x: (i32, Seq<char>, Seq<char>)| vs[s].notes.contains(x) ==> note_answers(vs, ciphers, note_id, name, text, idxs)[s].notes.contains(x)
        },
        forall|k: int| 0 <= k < idxs.len() ==> exists|s: int| {
            &&& 0 <= s < note_answers(vs, ciphers, note_id, name, text, idxs).len()
            &&& (#[trigger] note_answers(vs, ciphers, note_id, name, text, idxs)[s]).device_id == ciphers[#[trigger] idxs[k] as int].id()
            &&& note_answers(vs, ciphers, note_id, name, text, idxs)[s].notes.contains(
                (note_id, sealed_or_empty(ciphers[idxs[k] as int].key(), name), sealed_or_empty(ciphers[idxs[k] as int].key(), text)))
        },
        answers_distinct(vs) ==> answers_distinct(note_answers(vs, ciphers, note_id, name, text, idxs)),
    decreases idxs.len(),
{
    if idxs.len() > 0 {
        let prev_idxs = idxs.drop_last();
        lemma_note_answers_deliver(vs, ciphers, note_id, name, text, prev_idxs);
        let prev = note_answers(vs, ciphers, note_id, name, text, prev_idxs);
        let c = ciphers[idxs.last() as int];
        let e = (note_id, sealed_or_empty(c.key(), name), sealed_or_empty(c.key(), text));
        lemma_with_note_keeps(prev, c.id(), e);
        let w = note_answers(vs, ciphers, note_id, name, text, idxs);
        assert(w == with_note(prev, c.id(), e));
        assert forall|s: int| 0 <= s < vs.len() implies {
            &&& (#[trigger] w[s]).device_id == vs[s].device_id
            &&& forall|x: (i32, Seq<char>, Seq<char>)| vs[s].notes.contains(x) ==> w[s].notes.contains(x)
        } by {
            assert(prev[s].device_id == vs[s].device_id);
            assert(w[s].device_id == prev[s].device_id);
        }
        assert forall|k: int| 0 <= k < idxs.len() implies exists|s: int| {
            &&& 0 <= s < w.len()
            &&& (#[trigger] w[s]).device_id == ciphers[#[trigger] idxs[k] as int].id()
            &&& w[s].notes.contains((note_id, sealed_or_empty(ciphers[idxs[k] as int].key(), name), sealed_or_empty(ciphers[idxs[k] as int].key(), text)))
        } by {
            if k < idxs.len() - 1 {
                assert(prev_idxs[k] == idxs[k]);
                let s = choose|s: int| {
                    &&& 0 <= s < prev.len()
                    &&& (#[trigger] prev[s]).device_id == ciphers[prev_idxs[k] as int].id()
                    &&& prev[s].notes.contains((note_id, sealed_or_empty(ciphers[prev_idxs[k] as int].key(), name), sealed_or_empty(ciphers[prev_idxs[k] as int].key(), text)))
                };
                assert(w[s].device_id == prev[s].device_id);
            }
        }
    }
}

} // verus!

verus! {

/// The (folder id, device id) pairs of folder requests, in order.
pub fn folder_request_pairs(reqs: &[responses::FolderRequest]) -> (pairs: Vec<(i32, i32)>)
    ensures
        pairs@ == reqs@.map_values(|r: responses::FolderRequest| (r.folder_id, r.device_id)),
{
    let mut pairs: Vec<(i32, i32)> = Vec::new();
    let mut i: usize = 0;
    while i < reqs.len()
        invariant
            i <= reqs@.len(),
            pairs@ == reqs@.take(i as int).map_values(|r: responses::FolderRequest| (r.folder_id, r.device_id)),
        decreases reqs@.len() - i,
    {
        pairs.push((reqs[i].folder_id, reqs[i].device_id));
        assert(reqs@.take(i + 1).map_values(|r: responses::FolderRequest| (r.folder_id, r.device_id))
            =~= reqs@.take(i as int).map_values(|r: responses::FolderRequest| (r.folder_id, r.device_id)).push((reqs@[i as int].folder_id, reqs@[i as int].device_id)));
        i = i + 1;
    }
    assert(reqs@.take(reqs@.len() as int) =~= reqs@);
    pairs
}

/// The (note id, device id) pairs of note requests, in order.
pub fn note_request_pairs(reqs: &[responses::NoteRequest]) -> (pairs: Vec<(i32, i32)>)
    ensures
        pairs@ == reqs@.map_values(|r: responses::NoteRequest| (r.note_id, r.device_id)),
{
    let mut pairs: Vec<(i32, i32)> = Vec::new();
    let mut i: usize = 0;
    while i < reqs.len()
        invariant
            i <= reqs@.len(),
            pairs@ == reqs@.take(i as int).map_values(|r: responses::NoteRequest| (r.note_id, r.device_id)),
        decreases reqs@.len() - i,
    {
        pairs.push((reqs[i].note_id, reqs[i].device_id));
        assert(reqs@.take(i + 1).map_values(|r: responses::NoteRequest| (r.note_id, r.device_id))
            =~= reqs@.take(i as int).map_values(|r: responses::NoteRequest| (r.note_id, r.device_id)).push((reqs@[i as int].note_id, reqs@[i as int].device_id)));
        i = i + 1;
    }
    assert(reqs@.take(reqs@.len() as int) =~= reqs@);
    pairs
}

/// Appends the requests `more` to `acc`.
pub fn merge_requests(acc: &mut CreateRequests, more: CreateRequests)
    ensures
        final(acc).folder_ids@ == old(acc).folder_ids@ + more.folder_ids@,
        final(acc).note_ids@ == old(acc).note_ids@ + more.note_ids@,
{
    let mut more = more;
    acc.folder_ids.append(&mut more.folder_ids);
    acc.note_ids.append(&mut more.note_ids);
}

/// Whether there is anything to ask the other devices for.
pub fn has_requests(reqs: &CreateRequests) -> (r: bool)
    ensures
        r == (reqs.folder_ids@.len() > 0 || reqs.note_ids@.len() > 0),
{
    reqs.folder_ids.len() > 0 || reqs.note_ids.len() > 0
}

/// The ids of the accounts that are synchronised: the Mavinote ones, in order.
pub fn mavinote_account_ids(accounts: &[models::Account]) -> (ids: Vec<i32>)
    ensures
        ids@ == accounts@.filter(|a: models::Account| a.kind == models::AccountKind::Mavinote).map_values(|a: models::Account| a.id),
{
    let mut ids: Vec<i32> = Vec::new();
    let mut i: usize = 0;
    while i < accounts.len()
        invariant
            i <= accounts@.len(),
            ids@ == accounts@.take(i as int).filter(|a: models::Account| a.kind == models::AccountKind::Mavinote).map_values(|a: models::Account| a.id),
        decreases accounts@.len() - i,
    {
        proof {
            reveal(Seq::filter);
            assert(accounts@.take(i + 1).drop_last() =~= accounts@.take(i as int));
        }
        if accounts[i].kind == models::AccountKind::Mavinote {
            ids.push(accounts[i].id);
        }
        proof {
            let p = |a: models::Account| a.kind == models::AccountKind::Mavinote;
            let before = accounts@.take(i as int).filter(p);
            let after = accounts@.take(i + 1).filter(p);
            if p(accounts@[i as int]) {
                assert(after == before.push(accounts@[i as int]));
                assert(after.map_values(|a: models::Account| a.id) =~= before.map_values(|a: models::Account| a.id).push(accounts@[i as int].id));
            } else {
                assert(after == before);
            }
        }
        i = i + 1;
    }
    assert(accounts@.take(accounts@.len() as int) =~= accounts@);
    ids
}

/// What a failed sync of one account leads to.
#[derive(PartialEq, Eq, Structural)]
pub enum SyncFailure {
    /// The session expired: log in again, then go on with the next account.
    Relogin,
    /// Report it and go on with the next account.
    Report,
    /// This device was deleted from the account: stop syncing and return the error.
    Stop,
}

/// What a failed sync of one account, with error `e`, leads to.
pub fn sync_failure(e: &Error) -> (r: SyncFailure)
    ensures
        r == match e {
            Error::Mavinote(mavinote::Error::Unauthorized(_)) => SyncFailure::Relogin,
            Error::Mavinote(mavinote::Error::DeviceDeleted(_)) => SyncFailure::Stop,
            _ => SyncFailure::Report,
        },
{
    match e {
        Error::Mavinote(mavinote::Error::Unauthorized(_)) => SyncFailure::Relogin,
        Error::Mavinote(mavinote::Error::DeviceDeleted(_)) => SyncFailure::Stop,
        _ => SyncFailure::Report,
    }
}

/// The remote id of a folder the server created, or `None` where creating it failed.
pub fn created_folder_id(created: Option<&responses::CreatedFolder>) -> (r: Option<RemoteId>)
    ensures
        r == match created {
            Some(f) => Some(RemoteId(f.id)),
            None => None::<RemoteId>,
        },
{
    match created {
        Some(f) => Some(f.id()),
        None => None,
    }
}

/// The remote id and commit under which a new note is stored locally: those
/// the server gave, or no remote id and commit 0 where creating it failed.
pub fn created_note_fields(created: Option<&responses::CreatedNote>) -> (r: (Option<RemoteId>, i32))
    ensures
        r == match created {
            Some(n) => (Some(RemoteId(n.id)), n.commit),
            None => (None::<RemoteId>, 0i32),
        },
{
    match created {
        Some(n) => (Some(n.id()), n.commit),
        None => (None, 0),
    }
}

} // verus!

verus! {

/// Comparing devices misses none: each stored device is either still listed
/// with its key or its id is among the stale ones, and each listed device is
/// either already stored with its key or among the fresh ones.
pub proof fn lemma_device_changes_cover(stored: Seq<models::Device>, listed: Seq<responses::Device>)
    ensures
        forall|i: int| 0 <= i < stored.len() && !still_listed(#[trigger] stored[i], listed)
            ==> stale_device_ids(stored, listed).contains(stored[i].id),
        forall|i: int| 0 <= i < listed.len() && !already_stored(#[trigger] listed[i], stored)
            ==> fresh_devices_spec(stored, listed).contains(listed[i]),
        forall|k: int| 0 <= k < fresh_devices_spec(stored, listed).len()
            ==> !already_stored(#[trigger] fresh_devices_spec(stored, listed)[k], stored)
                && listed.contains(fresh_devices_spec(stored, listed)[k]),
{
    let p = |d: models::Device| !still_listed(d, listed);
    let q = |d: responses::Device| !already_stored(d, stored);
    assert forall|i: int| 0 <= i < stored.len() && !still_listed(#[trigger] stored[i], listed)
        implies stale_device_ids(stored, listed).contains(stored[i].id) by {
        let f = stored.filter(p);
        assert(p(stored[i]));
        stored.lemma_filter_contains(p, i);
        assert(f.contains(stored[i]));
        let k = choose|k: int| 0 <= k < f.len() && f[k] == stored[i];
        assert(f.map_values(|d: models::Device| d.id)[k] == stored[i].id);
    }
    assert forall|i: int| 0 <= i < listed.len() && !already_stored(#[trigger] listed[i], stored)
        implies fresh_devices_spec(stored, listed).contains(listed[i]) by {
        assert(q(listed[i]));
        listed.lemma_filter_contains(q, i);
    }
    assert forall|k: int| 0 <= k < fresh_devices_spec(stored, listed).len()
        implies !already_stored(#[trigger] fresh_devices_spec(stored, listed)[k], stored)
            && listed.contains(fresh_devices_spec(stored, listed)[k]) by {
        let f = listed.filter(q);
        listed.lemma_filter_pred(q, k);
        assert(q(f[k]));
        listed.lemma_filter_contains_rev(q, f[k]);
    }
}

} // verus!
