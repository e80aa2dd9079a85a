//! Laws of the library's decisions that hold for all inputs: how notes are
//! named, which notes are asked for after a pull, how the device list is
//! reconciled with the server's, and what answering other devices adds.
use vstd::prelude::*;
use crate::note::storage::{note_name_spec, NAME_LENGTH};
use crate::note::accounts::mavinote::responses::Commit;
use crate::note::sync::{first_cipher_for, grouped, requested, RequestGroup, merged_text, conflict_marker, asked_note_ids, stale_device_ids, fresh_devices_spec, with_folder, with_note, folder_answers, note_answers, lemma_slot};
use crate::note::crypto::DeviceCipher;
use crate::note::accounts::mavinote::requests::ResponseView;
use crate::note::models;
use crate::note::accounts::mavinote::responses;

verus! {

proof fn lemma_filter_keeps_all(s: Seq<char>, c: char)
    requires
        !s.contains(c),
    ensures
        s.filter(|x: char| x != c) == s,
    decreases s.len(),
{
    reveal(Seq::filter);
    if s.len() > 0 {
        assert(!s.drop_last().contains(c)) by {
            if s.drop_last().contains(c) {
                let k = choose|k: int| 0 <= k < s.drop_last().len() && s.drop_last()[k] == c;
                assert(s[k] == c);
            }
        }
        lemma_filter_keeps_all(s.drop_last(), c);
        assert(s.last() != c) by {
            assert(s[s.len() - 1] == s.last());
        }
        assert(s.drop_last().push(s.last()) =~= s);
    }
}

proof fn lemma_filter_split(s: Seq<char>, c: char)
    ensures
        s.filter(|x: char| x != c).len() + s.filter(|x: char| x == c).len() == s.len(),
    decreases s.len(),
{
    reveal(Seq::filter);
    if s.len() > 0 {
        lemma_filter_split(s.drop_last(), c);
    }
}

/// How many of a text's first characters its note name is taken from: all
/// of them, at most `NAME_LENGTH`.
pub open spec fn name_prefix_len(text: Seq<char>) -> int {
    if text.len() < NAME_LENGTH { text.len() as int } else { NAME_LENGTH as int }
}

/// A note's name never holds a line break, is at most `NAME_LENGTH`
/// characters long and no longer than the text. It is taken from the text's
/// first `NAME_LENGTH` characters (all of them, if it is shorter) and drops
/// exactly the line breaks among them: it is shorter by their number, and
/// keeps every other one of those characters. Where they hold no line break,
/// they are the name.
pub proof fn lemma_note_name(text: Seq<char>)
    ensures
        !note_name_spec(text).contains('\n'),
        note_name_spec(text).len() <= NAME_LENGTH,
        note_name_spec(text).len() <= text.len(),
        note_name_spec(text).len() + text.take(name_prefix_len(text)).filter(|x: char| x == '\n').len()
            == name_prefix_len(text),
        forall|i: int| 0 <= i < name_prefix_len(text) && text[i] != '\n'
            ==> #[trigger] note_name_spec(text).contains(text[i]),
        (forall|i: int| 0 <= i < text.len() && i < NAME_LENGTH ==> text[i] != '\n') ==> {
            &&& text.len() <= NAME_LENGTH ==> note_name_spec(text) == text
            &&& text.len() > NAME_LENGTH ==> note_name_spec(text) == text.subrange(0, NAME_LENGTH as int)
        },
{
    let n = if text.len() < NAME_LENGTH { text.len() as int } else { NAME_LENGTH as int };
    let p = |c: char| c != '\n';
    let t = text.take(n);
    let name = note_name_spec(text);
    assert(name == t.filter(p));
    t.lemma_filter_len(p);
    lemma_filter_split(t, '\n');
    assert forall|i: int| 0 <= i < name_prefix_len(text) && text[i] != '\n'
        implies #[trigger] note_name_spec(text).contains(text[i]) by {
        assert(t[i] == text[i]);
        t.lemma_filter_contains(p, i);
    }
    if name.contains('\n') {
        let k = choose|k: int| 0 <= k < name.len() && name[k] == '\n';
        t.lemma_filter_pred(p, k);
    }
    if forall|i: int| 0 <= i < text.len() && i < NAME_LENGTH ==> text[i] != '\n' {
        assert(!t.contains('\n')) by {
            if t.contains('\n') {
                let k = choose|k: int| 0 <= k < t.len() && t[k] == '\n';
                assert(text[k] == t[k]);
            }
        }
        lemma_filter_keeps_all(t, '\n');
        if text.len() <= NAME_LENGTH {
            assert(t =~= text);
        } else {
            assert(t =~= text.subrange(0, NAME_LENGTH as int));
        }
    }
}


/// Whether `ids` are the note ids of the commits picked, in order, by the
/// positions `idx`: each a position where `ask` is true, strictly
/// increasing, and covering every position where `ask` is true.
pub open spec fn picked_in_order(commits: Seq<Commit>, ask: Seq<bool>, ids: Seq<i32>, idx: Seq<int>) -> bool {
    &&& idx.len() == ids.len()
    &&& forall|k: int| 0 <= k < idx.len() ==> {
        &&& 0 <= #[trigger] idx[k] < ask.len()
        &&& ask[idx[k]]
        &&& ids[k] == commits[idx[k]].note_id
    }
    &&& forall|k: int, l: int| 0 <= k < l < idx.len() ==> #[trigger] idx[k] < #[trigger] idx[l]
    &&& forall|i: int| 0 <= i < ask.len() && #[trigger] ask[i] ==> exists|k: int| 0 <= k < idx.len() && idx[k] == i
}

/// After pulling a folder, a note is asked for exactly when its pull said
/// so: the asked ids are the note ids of the commits whose answer is true,
/// in the commits' order, one for each true answer.
pub proof fn lemma_asked_note_ids(commits: Seq<Commit>, ask: Seq<bool>)
    requires
        commits.len() == ask.len(),
    ensures
        asked_note_ids(commits, ask).len() == ask.filter(|b: bool| b).len(),
        forall|i: int| 0 <= i < ask.len() && ask[i] ==> #[trigger] asked_note_ids(commits, ask).contains(commits[i].note_id),
        exists|idx: Seq<int>| picked_in_order(commits, ask, asked_note_ids(commits, ask), idx),
    decreases commits.len(),
{
    reveal(Seq::filter);
    let ids = asked_note_ids(commits, ask);
    if commits.len() == 0 {
        assert(picked_in_order(commits, ask, ids, Seq::<int>::empty()));
    } else {
        let c0 = commits.drop_last();
        let a0 = ask.drop_last();
        lemma_asked_note_ids(c0, a0);
        let ids0 = asked_note_ids(c0, a0);
        let idx0 = choose|idx: Seq<int>| picked_in_order(c0, a0, ids0, idx);
        let n = ask.len() - 1;
        assert(ask.last() == ask[n]);
        assert(commits.last() == commits[n]);
        let idx = if ask[n] { idx0.push(n) } else { idx0 };
        if ask[n] {
            assert(ids =~= ids0.push(commits[n].note_id));
        } else {
            assert(ids =~= ids0);
        }
        assert forall|k: int| 0 <= k < idx.len() implies {
            &&& 0 <= #[trigger] idx[k] < ask.len()
            &&& ask[idx[k]]
            &&& ids[k] == commits[idx[k]].note_id
        } by {
            if k < idx0.len() {
                assert(idx[k] == idx0[k]);
                assert(a0[idx0[k]] == ask[idx0[k]]);
                assert(c0[idx0[k]] == commits[idx0[k]]);
                assert(ids[k] == ids0[k]);
            }
        }
        assert forall|k: int, l: int| 0 <= k < l < idx.len() implies #[trigger] idx[k] < #[trigger] idx[l] by {
            if l < idx0.len() {
                assert(idx[k] == idx0[k] && idx[l] == idx0[l]);
            } else {
                assert(idx[k] == idx0[k]);
                assert(0 <= idx0[k] < a0.len());
            }
        }
        assert forall|i: int| 0 <= i < ask.len() && #[trigger] ask[i] implies exists|k: int| 0 <= k < idx.len() && idx[k] == i by {
            if i < n {
                assert(a0[i] == ask[i]);
                let k = choose|k: int| 0 <= k < idx0.len() && idx0[k] == i;
                assert(idx[k] == idx0[k]);
            } else {
                assert(idx[idx0.len() as int] == n);
            }
        }
        assert(picked_in_order(commits, ask, ids, idx));
    }
    let idx = choose|idx: Seq<int>| picked_in_order(commits, ask, ids, idx);
    assert forall|i: int| 0 <= i < ask.len() && ask[i] implies #[trigger] ids.contains(commits[i].note_id) by {
        let k = choose|k: int| 0 <= k < idx.len() && idx[k] == i;
        assert(ids[k] == commits[idx[k]].note_id);
    }
}


/// Whether the server lists no device with the id and the key of `d`.
pub open spec fn unlisted(d: models::Device, listed: Seq<responses::Device>) -> bool {
    forall|j: int| 0 <= j < listed.len() ==> !(listed[j].id == d.id && #[trigger] listed[j].pubkey@ == d.pubkey@)
}

/// Whether no stored device has the id and the key of `d`.
pub open spec fn unstored(d: responses::Device, stored: Seq<models::Device>) -> bool {
    forall|i: int| 0 <= i < stored.len() ==> !(stored[i].id == d.id && #[trigger] stored[i].pubkey@ == d.pubkey@)
}

/// Whether `id` is the id of a stored device that the server does not list
/// with its id and key.
pub open spec fn id_of_unlisted(stored: Seq<models::Device>, listed: Seq<responses::Device>, id: i32) -> bool {
    exists|i: int| 0 <= i < stored.len() && #[trigger] stored[i].id == id && unlisted(stored[i], listed)
}

/// Reconciling the stored devices with the server's list compares id and
/// key together. A stored device is deleted exactly when the server lists no
/// device with its id and its key: every stale id is that of such a stored
/// device, and every such device's id is stale. A listed device is added
/// exactly when no stored device has its id and its key. So when every
/// stored device is listed with its id and key, nothing is deleted.
pub proof fn lemma_device_changes_match(stored: Seq<models::Device>, listed: Seq<responses::Device>)
    ensures
        forall|k: int| 0 <= k < stale_device_ids(stored, listed).len()
            ==> id_of_unlisted(stored, listed, #[trigger] stale_device_ids(stored, listed)[k]),
        forall|i: int| 0 <= i < stored.len() && unlisted(stored[i], listed)
            ==> #[trigger] stale_device_ids(stored, listed).contains(stored[i].id),
        forall|k: int| 0 <= k < fresh_devices_spec(stored, listed).len() ==> {
            &&& listed.contains(#[trigger] fresh_devices_spec(stored, listed)[k])
            &&& unstored(fresh_devices_spec(stored, listed)[k], stored)
        },
        forall|j: int| 0 <= j < listed.len() && unstored(listed[j], stored)
            ==> #[trigger] fresh_devices_spec(stored, listed).contains(listed[j]),
        (forall|i: int| 0 <= i < stored.len() ==> !unlisted(#[trigger] stored[i], listed))
            ==> stale_device_ids(stored, listed).len() == 0,
{
    broadcast use vstd::seq_lib::group_filter_ensures;
    let p = |d: models::Device| !crate::note::sync::still_listed(d, listed);
    let q = |d: responses::Device| !crate::note::sync::already_stored(d, stored);
    let f = stored.filter(p);
    assert forall|k: int| 0 <= k < stale_device_ids(stored, listed).len()
        implies id_of_unlisted(stored, listed, #[trigger] stale_device_ids(stored, listed)[k]) by {
        assert(stale_device_ids(stored, listed)[k] == f[k].id);
        assert(f.contains(f[k]));
        stored.lemma_filter_contains_rev(p, f[k]);
        stored.lemma_filter_pred(p, k);
        let i = choose|i: int| 0 <= i < stored.len() && stored[i] == f[k];
        assert forall|j: int| 0 <= j < listed.len()
            implies !(listed[j].id == stored[i].id && #[trigger] listed[j].pubkey@ == stored[i].pubkey@) by {
            if listed[j].id == stored[i].id && listed[j].pubkey@ == stored[i].pubkey@ {
                assert(crate::note::sync::same_device(stored[i], listed[j]));
            }
        }
        assert(stored[i].id == stale_device_ids(stored, listed)[k]);
    }
    assert forall|i: int| 0 <= i < stored.len() && unlisted(stored[i], listed)
        implies #[trigger] stale_device_ids(stored, listed).contains(stored[i].id) by {
        assert(p(stored[i]));
        stored.lemma_filter_contains(p, i);
        let k = choose|k: int| 0 <= k < f.len() && f[k] == stored[i];
        assert(stale_device_ids(stored, listed)[k] == stored[i].id);
    }
    if forall|i: int| 0 <= i < stored.len() ==> !unlisted(#[trigger] stored[i], listed) {
        if stale_device_ids(stored, listed).len() > 0 {
            assert(id_of_unlisted(stored, listed, stale_device_ids(stored, listed)[0]));
            let i = choose|i: int| 0 <= i < stored.len() && #[trigger] stored[i].id == stale_device_ids(stored, listed)[0]
                && unlisted(stored[i], listed);
            assert(!unlisted(stored[i], listed));
        }
    }
    let g = listed.filter(q);
    assert forall|k: int| 0 <= k < fresh_devices_spec(stored, listed).len() implies {
        &&& listed.contains(#[trigger] fresh_devices_spec(stored, listed)[k])
        &&& unstored(fresh_devices_spec(stored, listed)[k], stored)
    } by {
        assert(g.contains(g[k]));
        listed.lemma_filter_contains_rev(q, g[k]);
        listed.lemma_filter_pred(q, k);
        assert forall|i: int| 0 <= i < stored.len() implies !(stored[i].id == g[k].id && #[trigger] stored[i].pubkey@ == g[k].pubkey@) by {
            if stored[i].id == g[k].id && stored[i].pubkey@ == g[k].pubkey@ {
                assert(crate::note::sync::same_device(stored[i], g[k]));
            }
        }
    }
    assert forall|j: int| 0 <= j < listed.len() && unstored(listed[j], stored)
        implies #[trigger] fresh_devices_spec(stored, listed).contains(listed[j]) by {
        assert(q(listed[j]));
        listed.lemma_filter_contains(q, j);
    }
}


/// How many note copies `vs` hold across all answers.
pub open spec fn note_entries(vs: Seq<ResponseView>) -> nat
    decreases vs.len(),
{
    if vs.len() == 0 { 0 } else { note_entries(vs.drop_last()) + vs.last().notes.len() }
}

/// How many folder copies `vs` hold across all answers.
pub open spec fn folder_entries(vs: Seq<ResponseView>) -> nat
    decreases vs.len(),
{
    if vs.len() == 0 { 0 } else { folder_entries(vs.drop_last()) + vs.last().folders.len() }
}

proof fn lemma_entries_push(vs: Seq<ResponseView>, x: ResponseView)
    ensures
        note_entries(vs.push(x)) == note_entries(vs) + x.notes.len(),
        folder_entries(vs.push(x)) == folder_entries(vs) + x.folders.len(),
{
    assert(vs.push(x).drop_last() =~= vs);
}

proof fn lemma_entries_update(vs: Seq<ResponseView>, k: int, x: ResponseView)
    requires
        0 <= k < vs.len(),
    ensures
        note_entries(vs.update(k, x)) + vs[k].notes.len() == note_entries(vs) + x.notes.len(),
        folder_entries(vs.update(k, x)) + vs[k].folders.len() == folder_entries(vs) + x.folders.len(),
    decreases vs.len(),
{
    let w = vs.update(k, x);
    if k == vs.len() - 1 {
        assert(w.drop_last() =~= vs.drop_last());
    } else {
        lemma_entries_update(vs.drop_last(), k, x);
        assert(w.drop_last() =~= vs.drop_last().update(k, x));
    }
}

/// Adding a folder copy for a device adds exactly one folder copy to the
/// answers, and no note copy, whether the device had an answer or not.
pub proof fn lemma_with_folder_entries(vs: Seq<ResponseView>, device: i32, entry: (i32, Seq<char>))
    ensures
        folder_entries(with_folder(vs, device, entry)) == folder_entries(vs) + 1,
        note_entries(with_folder(vs, device, entry)) == note_entries(vs),
{
    lemma_slot(vs, device);
    match crate::note::sync::device_slot(vs, device) {
        Some(k) => {
            let x = ResponseView { device_id: vs[k].device_id, folders: vs[k].folders.push(entry), notes: vs[k].notes };
            lemma_entries_update(vs, k, x);
        },
        None => {
            lemma_entries_push(vs, ResponseView { device_id: device, folders: seq![entry], notes: seq![] });
        },
    }
}

/// Adding a note copy for a device adds exactly one note copy to the
/// answers, and no folder copy, whether the device had an answer or not.
pub proof fn lemma_with_note_entries(vs: Seq<ResponseView>, device: i32, entry: (i32, Seq<char>, Seq<char>))
    ensures
        note_entries(with_note(vs, device, entry)) == note_entries(vs) + 1,
        folder_entries(with_note(vs, device, entry)) == folder_entries(vs),
{
    lemma_slot(vs, device);
    match crate::note::sync::device_slot(vs, device) {
        Some(k) => {
            let x = ResponseView { device_id: vs[k].device_id, folders: vs[k].folders, notes: vs[k].notes.push(entry) };
            lemma_entries_update(vs, k, x);
        },
        None => {
            lemma_entries_push(vs, ResponseView { device_id: device, folders: seq![], notes: seq![entry] });
        },
    }
}

/// Answering a folder request adds one folder copy per requesting device,
/// and nothing else.
pub proof fn lemma_folder_answers_count(vs: Seq<ResponseView>, ciphers: Seq<DeviceCipher>, folder_id: i32, name: Seq<char>, idxs: Seq<usize>)
    ensures
        folder_entries(folder_answers(vs, ciphers, folder_id, name, idxs)) == folder_entries(vs) + idxs.len(),
        note_entries(folder_answers(vs, ciphers, folder_id, name, idxs)) == note_entries(vs),
    decreases idxs.len(),
{
    if idxs.len() > 0 {
        lemma_folder_answers_count(vs, ciphers, folder_id, name, idxs.drop_last());
        let c = ciphers[idxs.last() as int];
        lemma_with_folder_entries(folder_answers(vs, ciphers, folder_id, name, idxs.drop_last()), c.id(),
            (folder_id, crate::note::sync::sealed_or_empty(c.key(), name)));
    }
}

/// Answering a note request adds one note copy per requesting device, and
/// nothing else.
pub proof fn lemma_note_answers_count(vs: Seq<ResponseView>, ciphers: Seq<DeviceCipher>, note_id: i32, name: Seq<char>, text: Seq<char>, idxs: Seq<usize>)
    ensures
        note_entries(note_answers(vs, ciphers, note_id, name, text, idxs)) == note_entries(vs) + idxs.len(),
        folder_entries(note_answers(vs, ciphers, note_id, name, text, idxs)) == folder_entries(vs),
    decreases idxs.len(),
{
    if idxs.len() > 0 {
        lemma_note_answers_count(vs, ciphers, note_id, name, text, idxs.drop_last());
        let c = ciphers[idxs.last() as int];
        lemma_with_note_entries(note_answers(vs, ciphers, note_id, name, text, idxs.drop_last()), c.id(),
            (note_id, crate::note::sync::sealed_or_empty(c.key(), name), crate::note::sync::sealed_or_empty(c.key(), text)));
    }
}


/// Pulling a note over a locally modified copy keeps both texts: the merged
/// text begins with the pulled text, ends with the local text, and holds
/// exactly the conflict marker between them. Over an unmodified copy the
/// pulled text is kept as it is.
pub proof fn lemma_merged_text(pulled: Seq<char>, local: models::Note)
    ensures
        local.state == models::State::Modified ==> {
            &&& merged_text(pulled, local).len() == pulled.len() + conflict_marker().len() + local.text@.len()
            &&& merged_text(pulled, local).subrange(0, pulled.len() as int) == pulled
            &&& merged_text(pulled, local).subrange(pulled.len() as int, (pulled.len() + conflict_marker().len()) as int) == conflict_marker()
            &&& merged_text(pulled, local).subrange((pulled.len() + conflict_marker().len()) as int, merged_text(pulled, local).len() as int) == local.text@
        },
        local.state != models::State::Modified ==> merged_text(pulled, local) == pulled,
        conflict_marker().len() > 0,
{
    reveal_strlit("\n___CONFLICT_RESOLVING___\n");
    if local.state == models::State::Modified {
        let m = merged_text(pulled, local);
        let c = conflict_marker();
        assert(m.subrange(0, pulled.len() as int) =~= pulled);
        assert(m.subrange(pulled.len() as int, (pulled.len() + c.len()) as int) =~= c);
        assert(m.subrange((pulled.len() + c.len()) as int, m.len() as int) =~= local.text@);
    }
}


/// A device's first channel is found: where some channel seals for the
/// device, the position given is one such channel and none before it seals
/// for it; otherwise none is given.
pub proof fn lemma_first_cipher_for(ciphers: Seq<DeviceCipher>, device_id: i32)
    ensures
        match first_cipher_for(ciphers, device_id) {
            Some(i) => 0 <= i < ciphers.len() && ciphers[i].id() == device_id
                && forall|j: int| 0 <= j < i ==> (#[trigger] ciphers[j]).id() != device_id,
            None => forall|j: int| 0 <= j < ciphers.len() ==> (#[trigger] ciphers[j]).id() != device_id,
        },
{
    if exists|i: int| 0 <= i < ciphers.len() && ciphers[i].id() == device_id {
        let i = choose|i: int| 0 <= i < ciphers.len() && ciphers[i].id() == device_id;
        lemma_first_exists(ciphers, device_id, i);
    }
}

proof fn lemma_first_exists(ciphers: Seq<DeviceCipher>, device_id: i32, k: int)
    requires
        0 <= k < ciphers.len(),
        ciphers[k].id() == device_id,
    ensures
        exists|f: int| 0 <= f < ciphers.len() && ciphers[f].id() == device_id
            && forall|j: int| 0 <= j < f ==> ciphers[j].id() != device_id,
    decreases k,
{
    if exists|j: int| 0 <= j < k && ciphers[j].id() == device_id {
        let j = choose|j: int| 0 <= j < k && ciphers[j].id() == device_id;
        lemma_first_exists(ciphers, device_id, j);
    }
}

/// Whether one of `pairs` (item id, device id) asks for `item` for the device
/// whose first channel in `ciphers` is at `idx`.
pub open spec fn asked_for(pairs: Seq<(i32, i32)>, ciphers: Seq<DeviceCipher>, item: i32, idx: int) -> bool {
    exists|p: int| 0 <= p < pairs.len() && (#[trigger] pairs[p]).0 == item && ciphers[idx].id() == pairs[p].1
        && forall|j: int| 0 <= j < idx ==> (#[trigger] ciphers[j]).id() != pairs[p].1
}

/// Grouping requests keeps exactly what was asked: a group for an item holds
/// a channel exactly when some request for that item came from the device
/// of that channel (its first channel, where it has several).
pub proof fn lemma_groups_answer_requests(ciphers: Seq<DeviceCipher>, pairs: Seq<(i32, i32)>, groups: Seq<RequestGroup>)
    requires
        forall|item: i32, idx: usize| grouped(groups, item, idx) <==> requested(pairs, ciphers, item, idx),
    ensures
        forall|item: i32, idx: usize| idx < ciphers.len() ==>
            (#[trigger] grouped(groups, item, idx) <==> asked_for(pairs, ciphers, item, idx as int)),
{
    assert forall|item: i32, idx: usize| idx < ciphers.len() implies
        (#[trigger] grouped(groups, item, idx) <==> asked_for(pairs, ciphers, item, idx as int)) by {
        if requested(pairs, ciphers, item, idx) {
            let p = choose|p: int| 0 <= p < pairs.len() && (#[trigger] pairs[p]).0 == item
                && first_cipher_for(ciphers, pairs[p].1) == Some(idx as int);
            lemma_first_cipher_for(ciphers, pairs[p].1);
            assert(asked_for(pairs, ciphers, item, idx as int));
        }
        if asked_for(pairs, ciphers, item, idx as int) {
            let p = choose|p: int| 0 <= p < pairs.len() && (#[trigger] pairs[p]).0 == item && ciphers[idx as int].id() == pairs[p].1
                && forall|j: int| 0 <= j < idx ==> (#[trigger] ciphers[j]).id() != pairs[p].1;
            lemma_first_cipher_for(ciphers, pairs[p].1);
            match first_cipher_for(ciphers, pairs[p].1) {
                Some(f) => {
                    if f < idx {
                        assert(ciphers[f].id() != pairs[p].1);
                    }
                    if f > idx {
                        assert(ciphers[idx as int].id() != pairs[p].1);
                    }
                },
                None => {
                    assert(ciphers[idx as int].id() != pairs[p].1);
                },
            }
            assert(requested(pairs, ciphers, item, idx));
        }
    }
}

} // verus!
