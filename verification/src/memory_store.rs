//! The in-memory mail store: the reference model of [`MailStore`], used
//! where no database is wanted (tests, previews). Each table is an
//! association list with unique keys, read as a map.
use vstd::prelude::*;
use crate::assoc::{
    keys_unique, lemma_to_map_char, lemma_to_map_index, lemma_to_map_insert, lemma_to_map_push,
    lemma_to_map_remove, lemma_to_map_update, to_map,
};
use crate::sanitize::{html_to_text, plain_text};
use crate::store::{
    body_set, categories_set, flag_set, folder_listing, folder_views, folders_listed, folders_upserted,
    has_message_id, inference_set, no_filters, merged, message_views, moved, page_of, partial_event, read_set,
    smtp_shaped, is_smtp_address, str_opt_view, string_views, summary_views, upserted, Folder,
    FolderView, MailStore, MailStoreError, Message, MessageSummary, MessageView, SavedSearch,
    SavedSearchView, SearchFilters, SearchHit, SummaryView, SyncState, SyncStateView,
};
use crate::text::{
    append_chars, chars_of, contains, contains_chars, split_whitespace, string_of, views, words,
    clone_opt_string, lemma_seq_le_total, seq_le, to_lowercase, unicode_lower, lemma_seq_le_antisym, lemma_seq_le_trans, lemma_seq_lt_trans, lemma_seq_not_le, seq_lt,
    str_eq, str_le, strings_clone,
};

verus! {

/// A recipient-history entry.
pub struct Contact {
    pub address: String,
    pub name: String,
    pub uses: u32,
    pub last_used: i64,
}

/// A non-mail search document.
pub struct MemoryDoc {
    pub entity_type: String,
    pub entity_id: String,
    pub title: String,
    pub subtitle: String,
    pub body: String,
    pub ts: i64,
}

/// A recipient-history entry as plain values.
pub struct ContactView {
    pub address: Seq<char>,
    pub name: Seq<char>,
    pub uses: u32,
    pub last_used: i64,
}

impl View for Contact {
    type V = ContactView;

    open spec fn view(&self) -> ContactView {
        ContactView { address: self.address@, name: self.name@, uses: self.uses, last_used: self.last_used }
    }
}

/// A non-mail search document as plain values.
pub struct DocView {
    pub entity_type: Seq<char>,
    pub entity_id: Seq<char>,
    pub title: Seq<char>,
    pub subtitle: Seq<char>,
    pub body: Seq<char>,
    pub ts: i64,
}

impl View for MemoryDoc {
    type V = DocView;

    open spec fn view(&self) -> DocView {
        DocView {
            entity_type: self.entity_type@,
            entity_id: self.entity_id@,
            title: self.title@,
            subtitle: self.subtitle@,
            body: self.body@,
            ts: self.ts,
        }
    }
}

pub open spec fn contact_views(v: Seq<Contact>) -> Seq<ContactView> {
    v.map_values(|c: Contact| c@)
}

pub open spec fn doc_views(v: Seq<MemoryDoc>) -> Seq<DocView> {
    v.map_values(|d: MemoryDoc| d@)
}

pub open spec fn saved_views(v: Seq<SavedSearch>) -> Seq<SavedSearchView> {
    v.map_values(|s: SavedSearch| s@)
}

pub open spec fn contact_key() -> spec_fn(ContactView) -> Seq<char> {
    |c: ContactView| c.address
}

/// Names never decrease along the list.
pub open spec fn names_ordered(v: Seq<SavedSearchView>) -> bool {
    forall|a: int, b: int| 0 <= a < b < v.len() ==> seq_le((#[trigger] v[a]).name, (#[trigger] v[b]).name)
}

/// The slot just past every entry of a name-ordered list whose name is at
/// most `name`: where a new entry goes so that equal names keep their
/// insertion order.
pub open spec fn name_slot(v: Seq<SavedSearchView>, name: Seq<char>) -> int
    decreases v.len(),
{
    if v.len() == 0 {
        0
    } else if seq_le(v.last().name, name) {
        v.len() as int
    } else {
        name_slot(v.drop_last(), name)
    }
}

/// The list without the entries whose id is `id`.
pub open spec fn without_saved(v: Seq<SavedSearchView>, id: i64) -> Seq<SavedSearchView>
    decreases v.len(),
{
    if v.len() == 0 {
        v
    } else {
        let r = without_saved(v.drop_last(), id);
        if v.last().id == id {
            r
        } else {
            r.push(v.last())
        }
    }
}

/// The id after `n`, wrapping at the top of the `i64` range.
pub open spec fn next_saved_id(n: i64) -> i64 {
    if n == i64::MAX {
        i64::MIN
    } else {
        (n + 1) as i64
    }
}

/// The document list without the entry for (`entity_type`, `entity_id`).
pub open spec fn without_doc(v: Seq<DocView>, entity_type: Seq<char>, entity_id: Seq<char>) -> Seq<DocView>
    decreases v.len(),
{
    if v.len() == 0 {
        v
    } else {
        let r = without_doc(v.drop_last(), entity_type, entity_id);
        if v.last().entity_type == entity_type && v.last().entity_id == entity_id {
            r
        } else {
            r.push(v.last())
        }
    }
}

/// One send-history bump: a plausible SMTP address gets one more use at
/// `now` under its lowercase form, and a non-empty name replaces the
/// stored one. Anything else is ignored.
pub open spec fn record_one(map: Map<Seq<char>, ContactView>, addr: Seq<char>, name: Seq<char>, now: i64) -> Map<
    Seq<char>,
    ContactView,
> {
    if !smtp_shaped(addr) {
        map
    } else {
        let k = unicode_lower(addr);
        let e = if map.contains_key(k) {
            map[k]
        } else {
            ContactView { address: k, name: Seq::empty(), uses: 0, last_used: 0 }
        };
        map.insert(
            k,
            ContactView {
                address: k,
                name: if name.len() > 0 {
                    name
                } else {
                    e.name
                },
                uses: if e.uses == u32::MAX {
                    u32::MAX
                } else {
                    (e.uses + 1) as u32
                },
                last_used: now,
            },
        )
    }
}

/// The send history after recording `rs` in order.
pub open spec fn recorded(map: Map<Seq<char>, ContactView>, rs: Seq<(Seq<char>, Seq<char>)>, now: i64) -> Map<
    Seq<char>,
    ContactView,
>
    decreases rs.len(),
{
    if rs.len() == 0 {
        map
    } else {
        record_one(recorded(map, rs.drop_last(), now), rs.last().0, rs.last().1, now)
    }
}

pub open spec fn pair_views(v: Seq<(String, String)>) -> Seq<(Seq<char>, Seq<char>)> {
    v.map_values(|p: (String, String)| (p.0@, p.1@))
}

/// In-memory store. Mirrors the SQL store's semantics, including body
/// preservation on summary-only upserts and the partial-event guard.
pub struct MemoryMailStore {
    folders: Vec<Folder>,
    messages: Vec<Message>,
    sync_state: Vec<SyncState>,
    sender_prefs: Vec<(String, bool)>,
    contacts: Vec<Contact>,
    signatures: Vec<(String, String, String)>,
    documents: Vec<MemoryDoc>,
    saved_searches: Vec<SavedSearch>,
    saved_seq: i64,
}

pub open spec fn msg_key() -> spec_fn(MessageView) -> Seq<char> {
    |v: MessageView| v.summary.id
}

pub open spec fn folder_key() -> spec_fn(FolderView) -> Seq<char> {
    |f: FolderView| f.id
}

pub open spec fn sync_key() -> spec_fn(SyncStateView) -> Seq<char> {
    |s: SyncStateView| s.folder_id
}

pub open spec fn pair_key() -> spec_fn((Seq<char>, bool)) -> Seq<char> {
    |p: (Seq<char>, bool)| p.0
}

pub open spec fn sig_key() -> spec_fn((Seq<char>, Seq<char>, Seq<char>)) -> (Seq<char>, Seq<char>) {
    |t: (Seq<char>, Seq<char>, Seq<char>)| (t.0, t.1)
}

pub open spec fn sync_views(v: Seq<SyncState>) -> Seq<SyncStateView> {
    v.map_values(|s: SyncState| s@)
}

pub open spec fn pref_views(v: Seq<(String, bool)>) -> Seq<(Seq<char>, bool)> {
    v.map_values(|p: (String, bool)| (p.0@, p.1))
}

pub open spec fn sig_views(v: Seq<(String, String, String)>) -> Seq<(Seq<char>, Seq<char>, Seq<char>)> {
    v.map_values(|t: (String, String, String)| (t.0@, t.1@, t.2@))
}

/// Folder ids strictly increase along the list.
pub open spec fn ids_increasing(v: Seq<FolderView>) -> bool {
    forall|i: int, j: int| 0 <= i < j < v.len() ==> crate::text::seq_lt(#[trigger] v[i].id, #[trigger] v[j].id)
}

impl MemoryMailStore {
    /// The stored messages in storage order.
    pub closed spec fn message_list(&self) -> Seq<MessageView> {
        message_views(self.messages@)
    }

    /// Every stored message sits under its own id, so the write laws of
    /// [`crate::ops`] apply to this store.
    pub proof fn lemma_keyed_by_id(&self)
        requires
            self.wf(),
        ensures
            crate::ops::keyed_by_id(self.messages()),
    {
        let vs = message_views(self.messages@);
        lemma_to_map_char(vs, msg_key());
        assert forall|k: Seq<char>| #[trigger] self.messages().contains_key(k) implies self.messages()[k].summary.id == k by {
            let i = choose|i: int| 0 <= i < vs.len() && msg_key()(vs[i]) == k;
            assert(self.messages()[msg_key()(vs[i])] == vs[i]);
        }
    }

    /// Saved searches, in listing order.
    pub closed spec fn saved_list(&self) -> Seq<SavedSearchView> {
        saved_views(self.saved_searches@)
    }

    /// The id most recently handed out by `save_search`.
    pub closed spec fn last_saved_id(&self) -> i64 {
        self.saved_seq
    }

    /// Indexed non-mail documents, oldest first.
    pub closed spec fn documents(&self) -> Seq<DocView> {
        doc_views(self.documents@)
    }

    /// Send history by lowercase address.
    pub closed spec fn contacts(&self) -> Map<Seq<char>, ContactView> {
        to_map(contact_views(self.contacts@), contact_key())
    }

    /// An empty store.
    pub fn new() -> (r: Self)
        ensures
            r.wf(),
            r.messages() == Map::<Seq<char>, MessageView>::empty(),
            r.folders() == Map::<Seq<char>, FolderView>::empty(),
            r.sync_states() == Map::<Seq<char>, SyncStateView>::empty(),
            r.sender_prefs() == Map::<Seq<char>, bool>::empty(),
            r.signatures() == Map::<(Seq<char>, Seq<char>), Seq<char>>::empty(),
            r.saved_list() == Seq::<SavedSearchView>::empty(),
            r.documents() == Seq::<DocView>::empty(),
            r.contacts() == Map::<Seq<char>, ContactView>::empty(),
            r.last_saved_id() == 0,
    {
        let r = MemoryMailStore {
            folders: Vec::new(),
            messages: Vec::new(),
            sync_state: Vec::new(),
            sender_prefs: Vec::new(),
            contacts: Vec::new(),
            signatures: Vec::new(),
            documents: Vec::new(),
            saved_searches: Vec::new(),
            saved_seq: 0,
        };
        assert(message_views(r.messages@) =~= Seq::<MessageView>::empty());
        assert(folder_views(r.folders@) =~= Seq::<FolderView>::empty());
        assert(sync_views(r.sync_state@) =~= Seq::<SyncStateView>::empty());
        assert(pref_views(r.sender_prefs@) =~= Seq::<(Seq<char>, bool)>::empty());
        assert(sig_views(r.signatures@) =~= Seq::<(Seq<char>, Seq<char>, Seq<char>)>::empty());
        assert(contact_views(r.contacts@) =~= Seq::<ContactView>::empty());
        assert(saved_views(r.saved_searches@) =~= Seq::<SavedSearchView>::empty());
        assert(doc_views(r.documents@) =~= Seq::<DocView>::empty());
        assert(r.sender_prefs() =~= Map::<Seq<char>, bool>::empty());
        assert(r.signatures() =~= Map::<(Seq<char>, Seq<char>), Seq<char>>::empty());
        r
    }

    fn find_message(&self, id: &str) -> (r: Option<usize>)
        ensures
            match r {
                Some(i) => i < self.messages@.len() && self.messages@[i as int].summary.id@ == id@,
                None => forall|i: int| 0 <= i < self.messages@.len() ==> (#[trigger] self.messages@[i]).summary.id@ != id@,
            },
    {
        let mut i: usize = 0;
        while i < self.messages.len()
            invariant
                i <= self.messages@.len(),
                forall|j: int| 0 <= j < i ==> (#[trigger] self.messages@[j]).summary.id@ != id@,
            decreases self.messages@.len() - i,
        {
            if str_eq(self.messages[i].summary.id.as_str(), id) {
                return Some(i);
            }
            i = i + 1;
        }
        None
    }

    proof fn lemma_message_index(&self, i: int)
        requires
            self.wf(),
            0 <= i < self.messages@.len(),
        ensures
            self.messages().contains_key(self.messages@[i].summary.id@),
            self.messages()[self.messages@[i].summary.id@] == self.messages@[i]@,
    {
        let vs = message_views(self.messages@);
        lemma_to_map_index(vs, msg_key(), i);
        assert(vs[i] == self.messages@[i]@);
    }

    proof fn lemma_message_absent(&self, id: Seq<char>)
        requires
            self.wf(),
            forall|i: int| 0 <= i < self.messages@.len() ==> (#[trigger] self.messages@[i]).summary.id@ != id,
        ensures
            !self.messages().contains_key(id),
    {
        let vs = message_views(self.messages@);
        lemma_to_map_char(vs, msg_key());
        if self.messages().contains_key(id) {
            let i = choose|i: int| 0 <= i < vs.len() && msg_key()(vs[i]) == id;
            assert(vs[i] == self.messages@[i]@);
        }
    }

    /// Replace the message at `i` by one with the same id.
    fn replace_message(&mut self, i: usize, m: Message)
        requires
            old(self).wf(),
            i < old(self).messages@.len(),
            m.summary.id@ == old(self).messages@[i as int].summary.id@,
        ensures
            final(self).wf(),
            final(self).messages() == old(self).messages().insert(m.summary.id@, m@),
            final(self).folders() == old(self).folders(),
            final(self).sync_states() == old(self).sync_states(),
            final(self).sender_prefs() == old(self).sender_prefs(),
            final(self).signatures() == old(self).signatures(),
            final(self).message_list() == old(self).message_list().update(i as int, m@),
    {
        let ghost vs = message_views(self.messages@);
        proof {
            lemma_to_map_update(vs, msg_key(), i as int, m@);
        }
        self.messages.set(i, m);
        assert(message_views(self.messages@) =~= vs.update(i as int, m@));
    }
}

} // verus!
verus! {

impl MemoryMailStore {
    fn find_folder(&self, id: &str) -> (r: (usize, bool))
        requires
            self.wf(),
        ensures
            r.0 <= self.folders@.len(),
            forall|j: int| 0 <= j < r.0 ==> crate::text::seq_lt((#[trigger] self.folders@[j]).id@, id@),
            r.1 ==> r.0 < self.folders@.len() && self.folders@[r.0 as int].id@ == id@,
            !r.1 ==> forall|j: int| r.0 <= j < self.folders@.len() ==> crate::text::seq_lt(id@, (#[trigger] self.folders@[j]).id@),
    {
        let mut j: usize = 0;
        while j < self.folders.len() && !str_le(id, self.folders[j].id.as_str())
            invariant
                self.wf(),
                j <= self.folders@.len(),
                forall|k: int| 0 <= k < j ==> crate::text::seq_lt((#[trigger] self.folders@[k]).id@, id@),
            decreases self.folders@.len() - j,
        {
            proof {
                crate::text::lemma_seq_not_le(self.folders@[j as int].id@, id@);
            }
            j = j + 1;
        }
        if j < self.folders.len() && str_eq(self.folders[j].id.as_str(), id) {
            return (j, true);
        }
        proof {
            let fv = folder_views(self.folders@);
            assert forall|k: int| j <= k < self.folders@.len() implies crate::text::seq_lt(
                id@,
                (#[trigger] self.folders@[k]).id@,
            ) by {
                assert(fv[j as int].id == self.folders@[j as int].id@);
                assert(fv[k].id == self.folders@[k].id@);
                if k > j {
                    assert(crate::text::seq_lt(fv[j as int].id, fv[k].id));
                    crate::text::lemma_seq_le_trans(id@, fv[j as int].id, fv[k].id);
                    if id@ == fv[k].id {
                        crate::text::lemma_seq_le_antisym(fv[j as int].id, fv[k].id);
                    }
                }
            }
        }
        (j, false)
    }

    /// Insert or replace one folder, keeping the list ordered by id.
    fn put_folder(&mut self, f: Folder)
        requires
            old(self).wf(),
        ensures
            final(self).wf(),
            final(self).folders() == old(self).folders().insert(f@.id, f@),
            final(self).messages() == old(self).messages(),
            final(self).sync_states() == old(self).sync_states(),
            final(self).sender_prefs() == old(self).sender_prefs(),
            final(self).signatures() == old(self).signatures(),
    {
        let (j, found) = self.find_folder(f.id.as_str());
        let ghost fv = folder_views(self.folders@);
        if found {
            proof {
                lemma_to_map_update(fv, folder_key(), j as int, f@);
            }
            let ghost fid = f.id@;
            self.folders.set(j, f);
            proof {
                let nv = folder_views(self.folders@);
                assert(nv =~= fv.update(j as int, f@));
                assert(fv[j as int].id == fid);
                assert forall|a: int, b: int| 0 <= a < b < nv.len() implies crate::text::seq_lt(
                    #[trigger] nv[a].id,
                    #[trigger] nv[b].id,
                ) by {
                    assert(nv[a].id == fv[a].id);
                    assert(nv[b].id == fv[b].id);
                }
            }
        } else {
            proof {
                lemma_to_map_char(fv, folder_key());
                assert(!to_map(fv, folder_key()).contains_key(f@.id)) by {
                    if to_map(fv, folder_key()).contains_key(f@.id) {
                        let k = choose|k: int| 0 <= k < fv.len() && folder_key()(fv[k]) == f@.id;
                        assert(fv[k].id == self.folders@[k].id@);
                        if k < j {
                            assert(crate::text::seq_lt(self.folders@[k].id@, f.id@));
                        } else {
                            assert(crate::text::seq_lt(f.id@, self.folders@[k].id@));
                        }
                    }
                }
                lemma_to_map_insert(fv, folder_key(), j as int, f@);
            }
            let ghost fid = f.id@;
            self.folders.insert(j, f);
            proof {
                let nv = folder_views(self.folders@);
                assert(nv =~= fv.insert(j as int, f@));
                assert forall|a: int, b: int| 0 <= a < b < nv.len() implies crate::text::seq_lt(
                    #[trigger] nv[a].id,
                    #[trigger] nv[b].id,
                ) by {
                    if b < j {
                        assert(nv[a] == fv[a] && nv[b] == fv[b]);
                    } else if b == j {
                        assert(nv[a] == fv[a]);
                        assert(fv[a].id == old(self).folders@[a].id@);
                    } else if a == j {
                        assert(nv[b] == fv[b - 1]);
                        assert(fv[b - 1].id == old(self).folders@[b - 1].id@);
                    } else if a < j {
                        assert(nv[a] == fv[a] && nv[b] == fv[b - 1]);
                        assert(fv[a].id == old(self).folders@[a].id@);
                        assert(fv[b - 1].id == old(self).folders@[b - 1].id@);
                        crate::text::lemma_seq_lt_trans(fv[a].id, fid, fv[b - 1].id);
                    } else {
                        assert(nv[a] == fv[a - 1] && nv[b] == fv[b - 1]);
                    }
                }
            }
        }
    }

    fn find_sync(&self, folder_id: &str) -> (r: Option<usize>)
        ensures
            match r {
                Some(i) => i < self.sync_state@.len() && self.sync_state@[i as int].folder_id@ == folder_id@,
                None => forall|i: int| 0 <= i < self.sync_state@.len() ==> (#[trigger] self.sync_state@[i]).folder_id@ != folder_id@,
            },
    {
        let mut i: usize = 0;
        while i < self.sync_state.len()
            invariant
                i <= self.sync_state@.len(),
                forall|j: int| 0 <= j < i ==> (#[trigger] self.sync_state@[j]).folder_id@ != folder_id@,
            decreases self.sync_state@.len() - i,
        {
            if str_eq(self.sync_state[i].folder_id.as_str(), folder_id) {
                return Some(i);
            }
            i = i + 1;
        }
        None
    }

    fn find_pref(&self, address: &str) -> (r: Option<usize>)
        ensures
            match r {
                Some(i) => i < self.sender_prefs@.len() && self.sender_prefs@[i as int].0@ == address@,
                None => forall|i: int| 0 <= i < self.sender_prefs@.len() ==> (#[trigger] self.sender_prefs@[i]).0@ != address@,
            },
    {
        let mut i: usize = 0;
        while i < self.sender_prefs.len()
            invariant
                i <= self.sender_prefs@.len(),
                forall|j: int| 0 <= j < i ==> (#[trigger] self.sender_prefs@[j]).0@ != address@,
            decreases self.sender_prefs@.len() - i,
        {
            if str_eq(self.sender_prefs[i].0.as_str(), address) {
                return Some(i);
            }
            i = i + 1;
        }
        None
    }

    fn find_signature(&self, account: &str, kind: &str) -> (r: Option<usize>)
        ensures
            match r {
                Some(i) => i < self.signatures@.len() && self.signatures@[i as int].0@ == account@
                    && self.signatures@[i as int].1@ == kind@,
                None => forall|i: int|
                    0 <= i < self.signatures@.len() ==> !((#[trigger] self.signatures@[i]).0@ == account@
                        && self.signatures@[i].1@ == kind@),
            },
    {
        let mut i: usize = 0;
        while i < self.signatures.len()
            invariant
                i <= self.signatures@.len(),
                forall|j: int|
                    0 <= j < i ==> !((#[trigger] self.signatures@[j]).0@ == account@ && self.signatures@[j].1@
                        == kind@),
            decreases self.signatures@.len() - i,
        {
            if str_eq(self.signatures[i].0.as_str(), account) && str_eq(self.signatures[i].1.as_str(), kind) {
                return Some(i);
            }
            i = i + 1;
        }
        None
    }

    /// Upsert one message (the body of `upsert_messages`).
    fn put_message(&mut self, m: Message)
        requires
            old(self).wf(),
        ensures
            final(self).wf(),
            final(self).messages() == crate::store::upsert_one(old(self).messages(), m@),
            final(self).folders() == old(self).folders(),
            final(self).sync_states() == old(self).sync_states(),
            final(self).sender_prefs() == old(self).sender_prefs(),
            final(self).signatures() == old(self).signatures(),
    {
        match self.find_message(m.summary.id.as_str()) {
            Some(i) => {
                proof {
                    self.lemma_message_index(i as int);
                }
                let e = self.messages[i].clone();
                let n = merge_message(&e, m);
                self.replace_message(i, n);
            },
            None => {
                proof {
                    self.lemma_message_absent(m.summary.id@);
                    lemma_to_map_push(message_views(self.messages@), msg_key(), m@);
                }
                let ghost vs = message_views(self.messages@);
                self.messages.push(m);
                assert(message_views(self.messages@) =~= vs.push(m@));
            },
        }
    }
}

fn keep_some_exec(new: Option<String>, old: &Option<String>) -> (r: Option<String>)
    ensures
        crate::store::opt_view(r) == crate::store::keep_some(
            crate::store::opt_view(new),
            crate::store::opt_view(*old),
        ),
{
    match new {
        Some(s) => Some(s),
        None => clone_opt_string(old),
    }
}

/// The upsert merge of `m` over the stored `e` (see [`merged`]).
fn merge_message(e: &Message, m: Message) -> (r: Message)
    ensures
        r@ == merged(e@, m@),
{
    let partial = m.summary.from_address.as_str().is_empty() && m.summary.received_at == 0;
    let ghost mv = m@;
    let Message { summary, conversation_id, body_html, body_content_type, internet_message_id, categories } = m;
    let mut s = summary;
    if partial {
        s.subject = e.summary.subject.clone();
        s.from_name = e.summary.from_name.clone();
        s.from_address = e.summary.from_address.clone();
        s.preview = e.summary.preview.clone();
        s.has_attachments = e.summary.has_attachments;
    }
    if s.received_at == 0 {
        s.received_at = e.summary.received_at;
    }
    let cats = if partial {
        strings_clone(&e.categories)
    } else {
        categories
    };
    let r = Message {
        summary: s,
        conversation_id: keep_some_exec(conversation_id, &e.conversation_id),
        body_html: keep_some_exec(body_html, &e.body_html),
        body_content_type: keep_some_exec(body_content_type, &e.body_content_type),
        internet_message_id: keep_some_exec(internet_message_id, &e.internet_message_id),
        categories: cats,
    };
    assert(r@.summary =~= merged(e@, mv).summary);
    r
}

} // verus!
verus! {

impl MailStore for MemoryMailStore {
    closed spec fn wf(&self) -> bool {
        &&& keys_unique(message_views(self.messages@), msg_key())
        &&& keys_unique(folder_views(self.folders@), folder_key())
        &&& ids_increasing(folder_views(self.folders@))
        &&& keys_unique(sync_views(self.sync_state@), sync_key())
        &&& keys_unique(pref_views(self.sender_prefs@), pair_key())
        &&& keys_unique(sig_views(self.signatures@), sig_key())
        &&& keys_unique(contact_views(self.contacts@), contact_key())
        &&& names_ordered(saved_views(self.saved_searches@))
    }

    closed spec fn messages(&self) -> Map<Seq<char>, MessageView> {
        to_map(message_views(self.messages@), msg_key())
    }

    closed spec fn folders(&self) -> Map<Seq<char>, FolderView> {
        to_map(folder_views(self.folders@), folder_key())
    }

    closed spec fn sync_states(&self) -> Map<Seq<char>, SyncStateView> {
        to_map(sync_views(self.sync_state@), sync_key())
    }

    closed spec fn sender_prefs(&self) -> Map<Seq<char>, bool> {
        let m = to_map(pref_views(self.sender_prefs@), pair_key());
        Map::new(|k: Seq<char>| m.contains_key(k), |k: Seq<char>| m[k].1)
    }

    closed spec fn signatures(&self) -> Map<(Seq<char>, Seq<char>), Seq<char>> {
        let m = to_map(sig_views(self.signatures@), sig_key());
        Map::new(|k: (Seq<char>, Seq<char>)| m.contains_key(k), |k: (Seq<char>, Seq<char>)| m[k].2)
    }

    /// The in-memory store never fails.
    open spec fn reliable(&self) -> bool {
        true
    }

    fn upsert_folders(&mut self, folders: &[Folder]) -> (r: Result<(), MailStoreError>)
        ensures
            r is Ok,
    {
        let mut k: usize = 0;
        let ghost start = self.folders();
        let ghost msgs = self.messages();
        let ghost syncs = self.sync_states();
        while k < folders.len()
            invariant
                self.wf(),
                k <= folders@.len(),
                self.folders() == folders_upserted(start, folder_views(folders@).take(k as int)),
                self.messages() == msgs,
                self.sync_states() == syncs,
            decreases folders@.len() - k,
        {
            self.put_folder(folders[k].clone());
            k = k + 1;
            proof {
                let t = folder_views(folders@).take(k as int);
                assert(t.drop_last() =~= folder_views(folders@).take(k - 1));
                assert(t.last() == folders@[k - 1]@);
            }
        }
        assert(folder_views(folders@).take(folders@.len() as int) =~= folder_views(folders@));
        Ok(())
    }

    fn list_folders(&self) -> (r: Result<Vec<Folder>, MailStoreError>)
        ensures
            r is Ok,
    {
        let mut v: Vec<Folder> = Vec::new();
        let mut i: usize = 0;
        while i < self.folders.len()
            invariant
                i <= self.folders@.len(),
                folder_views(v@) =~= folder_views(self.folders@).take(i as int),
            decreases self.folders@.len() - i,
        {
            let ghost before = folder_views(v@);
            let f = self.folders[i].clone();
            v.push(f);
            assert(folder_views(v@) =~= before.push(f@));
            i = i + 1;
        }
        proof {
            let fv = folder_views(self.folders@);
            assert(folder_views(v@) =~= fv);
            lemma_to_map_char(fv, folder_key());
        }
        Ok(v)
    }

    fn upsert_messages(&mut self, messages: &[Message]) -> (r: Result<(), MailStoreError>)
        ensures
            r is Ok,
    {
        let mut k: usize = 0;
        let ghost start = self.messages();
        let ghost fs = self.folders();
        let ghost syncs = self.sync_states();
        while k < messages.len()
            invariant
                self.wf(),
                k <= messages@.len(),
                self.messages() == upserted(start, message_views(messages@).take(k as int)),
                self.folders() == fs,
                self.sync_states() == syncs,
            decreases messages@.len() - k,
        {
            self.put_message(messages[k].clone());
            k = k + 1;
            proof {
                let t = message_views(messages@).take(k as int);
                assert(t.drop_last() =~= message_views(messages@).take(k - 1));
                assert(t.last() == messages@[k - 1]@);
            }
        }
        assert(message_views(messages@).take(messages@.len() as int) =~= message_views(messages@));
        Ok(())
    }

    fn list_messages(&self, folder_id: &str, limit: u32, offset: u32) -> (r: Result<
        Vec<MessageSummary>,
        MailStoreError,
    >)
        ensures
            r is Ok,
    {
        Ok(self.list_messages_in(folder_id, limit, offset))
    }

    fn get_message(&self, id: &str) -> (r: Result<Option<Message>, MailStoreError>)
        ensures
            r is Ok,
    {
        match self.find_message(id) {
            Some(i) => {
                proof {
                    self.lemma_message_index(i as int);
                }
                Ok(Some(self.messages[i].clone()))
            },
            None => {
                proof {
                    self.lemma_message_absent(id@);
                }
                Ok(None)
            },
        }
    }

    fn delete_message(&mut self, id: &str) -> (r: Result<(), MailStoreError>)
        ensures
            r is Ok,
    {
        match self.find_message(id) {
            Some(i) => {
                let ghost vs = message_views(self.messages@);
                proof {
                    lemma_to_map_remove(vs, msg_key(), i as int);
                    assert(vs[i as int].summary.id == id@);
                }
                self.messages.remove(i);
                assert(message_views(self.messages@) =~= vs.remove(i as int));
            },
            None => {
                proof {
                    self.lemma_message_absent(id@);
                    assert(self.messages().remove(id@) =~= self.messages());
                }
            },
        }
        Ok(())
    }

    fn set_message_body(&mut self, id: &str, body: &str, content_type: &str) -> (r: Result<(), MailStoreError>)
        ensures
            r is Ok,
    {
        match self.find_message(id) {
            Some(i) => {
                proof {
                    self.lemma_message_index(i as int);
                }
                let mut m = self.messages[i].clone();
                m.body_html = Some(String::from_str(body));
                m.body_content_type = Some(String::from_str(content_type));
                self.replace_message(i, m);
            },
            None => {
                proof {
                    self.lemma_message_absent(id@);
                }
            },
        }
        Ok(())
    }

    fn unread_counts(&self) -> (r: Result<Vec<(String, u32)>, MailStoreError>)
        ensures
            r matches Ok(v) && unread_listing(self.message_list(), v@),
    {
        Ok(self.unread_counts_in())
    }

    fn get_sender_pref(&self, address: &str) -> (r: Result<bool, MailStoreError>)
        ensures
            r is Ok,
    {
        proof {
            lemma_to_map_char(pref_views(self.sender_prefs@), pair_key());
        }
        match self.find_pref(address) {
            Some(i) => {
                proof {
                    assert(pref_views(self.sender_prefs@)[i as int] == (self.sender_prefs@[i as int].0@, self.sender_prefs@[i as int].1));
                }
                Ok(self.sender_prefs[i].1)
            },
            None => {
                proof {
                    let pv = pref_views(self.sender_prefs@);
                    if to_map(pv, pair_key()).contains_key(address@) {
                        let k = choose|k: int| 0 <= k < pv.len() && pair_key()(pv[k]) == address@;
                        assert(pv[k].0 == self.sender_prefs@[k].0@);
                    }
                }
                Ok(false)
            },
        }
    }

    fn set_sender_pref(&mut self, address: &str, allow_remote_images: bool) -> (r: Result<(), MailStoreError>)
        ensures
            r is Ok,
    {
        let ghost pv = pref_views(self.sender_prefs@);
        let ghost old_prefs = self.sender_prefs();
        let entry = (String::from_str(address), allow_remote_images);
        match self.find_pref(address) {
            Some(i) => {
                proof {
                    lemma_to_map_update(pv, pair_key(), i as int, (address@, allow_remote_images));
                }
                self.sender_prefs.set(i, entry);
                assert(pref_views(self.sender_prefs@) =~= pv.update(i as int, (address@, allow_remote_images)));
            },
            None => {
                proof {
                    lemma_to_map_char(pv, pair_key());
                    if to_map(pv, pair_key()).contains_key(address@) {
                        let k = choose|k: int| 0 <= k < pv.len() && pair_key()(pv[k]) == address@;
                        assert(pv[k].0 == self.sender_prefs@[k].0@);
                    }
                    lemma_to_map_push(pv, pair_key(), (address@, allow_remote_images));
                }
                self.sender_prefs.push(entry);
                assert(pref_views(self.sender_prefs@) =~= pv.push((address@, allow_remote_images)));
            },
        }
        assert(self.sender_prefs() =~= old_prefs.insert(address@, allow_remote_images));
        Ok(())
    }

    fn get_sync_state(&self, folder_id: &str) -> (r: Result<Option<SyncState>, MailStoreError>)
        ensures
            r is Ok,
    {
        let ghost sv = sync_views(self.sync_state@);
        proof {
            lemma_to_map_char(sv, sync_key());
        }
        match self.find_sync(folder_id) {
            Some(i) => {
                assert(sv[i as int] == self.sync_state@[i as int]@);
                Ok(Some(self.sync_state[i].clone()))
            },
            None => {
                proof {
                    if to_map(sv, sync_key()).contains_key(folder_id@) {
                        let k = choose|k: int| 0 <= k < sv.len() && sync_key()(sv[k]) == folder_id@;
                        assert(sv[k] == self.sync_state@[k]@);
                    }
                }
                Ok(None)
            },
        }
    }

    fn set_sync_state(&mut self, state: &SyncState) -> (r: Result<(), MailStoreError>)
        ensures
            r is Ok,
    {
        let ghost sv = sync_views(self.sync_state@);
        let s = state.clone();
        match self.find_sync(state.folder_id.as_str()) {
            Some(i) => {
                proof {
                    lemma_to_map_update(sv, sync_key(), i as int, s@);
                }
                self.sync_state.set(i, s);
                assert(sync_views(self.sync_state@) =~= sv.update(i as int, state@));
            },
            None => {
                proof {
                    lemma_to_map_char(sv, sync_key());
                    if to_map(sv, sync_key()).contains_key(state.folder_id@) {
                        let k = choose|k: int| 0 <= k < sv.len() && sync_key()(sv[k]) == state.folder_id@;
                        assert(sv[k] == self.sync_state@[k]@);
                    }
                    lemma_to_map_push(sv, sync_key(), s@);
                }
                self.sync_state.push(s);
                assert(sync_views(self.sync_state@) =~= sv.push(state@));
            },
        }
        Ok(())
    }

    fn record_recipients(&mut self, recipients: &[(String, String)], now: i64) -> (r: Result<(), MailStoreError>)
        ensures
            r is Ok,
            final(self).contacts() == recorded(old(self).contacts(), pair_views(recipients@), now),
    {
        self.record_recipients_in(recipients, now);
        Ok(())
    }

    fn search_recipients(&self, query: &str, limit: u32) -> (r: Result<Vec<(String, String)>, MailStoreError>)
        ensures
            r matches Ok(v) && exists|full: Seq<Scored>, perm: Seq<int>|
                reorders(full, suggestion_pool(self.contact_list(), self.message_list(), query@), perm) && ranked(
                    full,
                ) && pair_views(v@) == suggestion_pairs(full.take(min_len(limit, full.len()))),
    {
        Ok(self.search_recipients_in(query, limit))
    }

    fn get_signature(&self, account: &str, kind: &str) -> (r: Result<Option<String>, MailStoreError>)
        ensures
            r is Ok,
    {
        let ghost gv = sig_views(self.signatures@);
        proof {
            lemma_to_map_char(gv, sig_key());
        }
        match self.find_signature(account, kind) {
            Some(i) => {
                assert(gv[i as int] == (self.signatures@[i as int].0@, self.signatures@[i as int].1@, self.signatures@[i as int].2@));
                Ok(Some(self.signatures[i].2.clone()))
            },
            None => {
                proof {
                    if to_map(gv, sig_key()).contains_key((account@, kind@)) {
                        let k = choose|k: int| 0 <= k < gv.len() && sig_key()(gv[k]) == (account@, kind@);
                        assert(gv[k] == (self.signatures@[k].0@, self.signatures@[k].1@, self.signatures@[k].2@));
                    }
                }
                Ok(None)
            },
        }
    }

    fn set_signature(&mut self, account: &str, kind: &str, content: &str) -> (r: Result<(), MailStoreError>)
        ensures
            r is Ok,
    {
        let ghost gv = sig_views(self.signatures@);
        let ghost old_sigs = self.signatures();
        let entry = (String::from_str(account), String::from_str(kind), String::from_str(content));
        let ghost ev = (account@, kind@, content@);
        match self.find_signature(account, kind) {
            Some(i) => {
                proof {
                    lemma_to_map_update(gv, sig_key(), i as int, ev);
                }
                self.signatures.set(i, entry);
                assert(sig_views(self.signatures@) =~= gv.update(i as int, ev));
            },
            None => {
                proof {
                    lemma_to_map_char(gv, sig_key());
                    if to_map(gv, sig_key()).contains_key((account@, kind@)) {
                        let k = choose|k: int| 0 <= k < gv.len() && sig_key()(gv[k]) == (account@, kind@);
                        assert(gv[k] == (self.signatures@[k].0@, self.signatures@[k].1@, self.signatures@[k].2@));
                    }
                    lemma_to_map_push(gv, sig_key(), ev);
                }
                self.signatures.push(entry);
                assert(sig_views(self.signatures@) =~= gv.push(ev));
            },
        }
        assert(self.signatures() =~= old_sigs.insert((account@, kind@), content@));
        Ok(())
    }

    fn search(&self, query: &str, filters: &SearchFilters, limit: u32) -> (r: Result<
        Vec<SearchHit>,
        MailStoreError,
    >)
        ensures
            r matches Ok(v) && exists|full: Seq<HitView>, perm: Seq<int>|
                reorders(
                    full,
                    search_candidates(self.message_list(), self.documents(), search_tokens(query@), *filters),
                    perm,
                ) && newest_first(full) && hit_views(v@) == full.take(min_len(limit, full.len())),
    {
        Ok(self.search_in(query, filters, limit))
    }

    fn index_document(
        &mut self,
        entity_type: &str,
        entity_id: &str,
        title: &str,
        subtitle: &str,
        body: &str,
        ts: i64,
    ) -> (r: Result<(), MailStoreError>)
        ensures
            r is Ok,
            final(self).documents() == without_doc(old(self).documents(), entity_type@, entity_id@).push(
                DocView {
                    entity_type: entity_type@,
                    entity_id: entity_id@,
                    title: title@,
                    subtitle: subtitle@,
                    body: body@,
                    ts,
                },
            ),
    {
        self.index_document_in(entity_type, entity_id, title, subtitle, body, ts);
        Ok(())
    }

    fn list_saved_searches(&self) -> (r: Result<Vec<SavedSearch>, MailStoreError>)
        ensures
            r matches Ok(v) && saved_views(v@) == self.saved_list() && names_ordered(saved_views(v@)),
    {
        Ok(self.list_saved_searches_in())
    }

    fn save_search(&mut self, name: &str, query: &str, filters_json: &str) -> (r: Result<i64, MailStoreError>)
        ensures
            r matches Ok(id) && id == next_saved_id(old(self).last_saved_id()) && final(self).last_saved_id() == id
                && final(self).saved_list() == old(self).saved_list().insert(
                name_slot(old(self).saved_list(), name@),
                SavedSearchView { id, name: name@, query: query@, filters: filters_json@ },
            ),
    {
        Ok(self.save_search_in(name, query, filters_json))
    }

    fn delete_saved_search(&mut self, id: i64) -> (r: Result<(), MailStoreError>)
        ensures
            r is Ok,
            final(self).saved_list() == without_saved(old(self).saved_list(), id),
    {
        self.delete_saved_search_in(id);
        Ok(())
    }

    fn message_exists(&self, id: &str, internet_message_id: Option<&str>) -> (r: Result<bool, MailStoreError>)
        ensures
            r is Ok,
    {
        Ok(self.message_exists_in(id, internet_message_id))
    }

    fn broken_summary_ids(&self, limit: u32) -> (r: Result<Vec<String>, MailStoreError>)
        ensures
            r matches Ok(v) && broken_listing(self.messages(), limit, v@),
    {
        Ok(self.broken_summary_ids_in(limit))
    }

    fn set_read_state(&mut self, id: &str, is_read: bool) -> (r: Result<(), MailStoreError>)
        ensures
            r is Ok,
    {
        match self.find_message(id) {
            Some(i) => {
                proof {
                    self.lemma_message_index(i as int);
                }
                let mut m = self.messages[i].clone();
                m.summary.is_read = is_read;
                self.replace_message(i, m);
                assert(self.messages() =~= read_set(old(self).messages(), id@, is_read));
            },
            None => {
                proof {
                    self.lemma_message_absent(id@);
                }
            },
        }
        Ok(())
    }

    fn set_flag_status(&mut self, id: &str, flag_status: &str) -> (r: Result<(), MailStoreError>)
        ensures
            r is Ok,
    {
        match self.find_message(id) {
            Some(i) => {
                proof {
                    self.lemma_message_index(i as int);
                }
                let mut m = self.messages[i].clone();
                m.summary.flag_status = String::from_str(flag_status);
                self.replace_message(i, m);
                assert(self.messages() =~= flag_set(old(self).messages(), id@, flag_status@));
            },
            None => {
                proof {
                    self.lemma_message_absent(id@);
                }
            },
        }
        Ok(())
    }

    fn set_categories(&mut self, id: &str, categories: &[String]) -> (r: Result<(), MailStoreError>)
        ensures
            r is Ok,
    {
        match self.find_message(id) {
            Some(i) => {
                proof {
                    self.lemma_message_index(i as int);
                }
                let mut m = self.messages[i].clone();
                let mut cats: Vec<String> = Vec::new();
                let mut k: usize = 0;
                while k < categories.len()
                    invariant
                        k <= categories@.len(),
                        cats@ =~= categories@.take(k as int),
                    decreases categories@.len() - k,
                {
                    cats.push(categories[k].clone());
                    k = k + 1;
                }
                assert(cats@ =~= categories@);
                m.categories = cats;
                self.replace_message(i, m);
                assert(self.messages() =~= categories_set(old(self).messages(), id@, string_views(categories@)));
            },
            None => {
                proof {
                    self.lemma_message_absent(id@);
                }
            },
        }
        Ok(())
    }

    fn set_inference(&mut self, id: &str, classification: &str) -> (r: Result<(), MailStoreError>)
        ensures
            r is Ok,
    {
        match self.find_message(id) {
            Some(i) => {
                proof {
                    self.lemma_message_index(i as int);
                }
                let mut m = self.messages[i].clone();
                m.summary.inference_classification = String::from_str(classification);
                self.replace_message(i, m);
                assert(self.messages() =~= inference_set(old(self).messages(), id@, classification@));
            },
            None => {
                proof {
                    self.lemma_message_absent(id@);
                }
            },
        }
        Ok(())
    }

    fn move_message(&mut self, id: &str, new_folder_id: &str, new_id: Option<&str>) -> (r: Result<
        (),
        MailStoreError,
    >)
        ensures
            r is Ok,
    {
        match self.find_message(id) {
            Some(i) => {
                proof {
                    self.lemma_message_index(i as int);
                }
                let ghost vs = message_views(self.messages@);
                let mut m = self.messages.remove(i);
                proof {
                    lemma_to_map_remove(vs, msg_key(), i as int);
                    assert(message_views(self.messages@) =~= vs.remove(i as int));
                }
                m.summary.folder_id = String::from_str(new_folder_id);
                match new_id {
                    Some(dest) => {
                        m.summary.id = String::from_str(dest);
                    },
                    None => {},
                }
                self.put_message_fresh_or_replace(m);
                assert(self.messages() =~= moved(old(self).messages(), id@, new_folder_id@, str_opt_view(new_id)));
            },
            None => {
                proof {
                    self.lemma_message_absent(id@);
                }
            },
        }
        Ok(())
    }
}

} // verus!
verus! {

/// `j` occurs in `r`.
pub open spec fn listed(r: Seq<usize>, j: int) -> bool {
    exists|a: int| 0 <= a < r.len() && r[a] == j
}

/// Indices of `ts` ordered newest first; equal timestamps keep input order.
fn order_newest_first(ts: &Vec<i64>) -> (r: Vec<usize>)
    ensures
        r@.len() == ts@.len(),
        forall|a: int| 0 <= a < r@.len() ==> r@[a] < ts@.len(),
        forall|a: int, b: int| 0 <= a < b < r@.len() ==> r@[a] != r@[b],
        forall|a: int, b: int|
            0 <= a < b < r@.len() ==> ts@[(#[trigger] r@[a]) as int] >= ts@[(#[trigger] r@[b]) as int],
        forall|j: int| 0 <= j < ts@.len() ==> #[trigger] listed(r@, j),
{
    let mut r: Vec<usize> = Vec::new();
    let mut i: usize = 0;
    while i < ts.len()
        invariant
            i <= ts@.len(),
            r@.len() == i,
            forall|a: int| 0 <= a < r@.len() ==> r@[a] < i,
            forall|a: int, b: int| 0 <= a < b < r@.len() ==> r@[a] != r@[b],
            forall|a: int, b: int|
                0 <= a < b < r@.len() ==> ts@[(#[trigger] r@[a]) as int] >= ts@[(#[trigger] r@[b]) as int],
            forall|j: int| 0 <= j < i ==> #[trigger] listed(r@, j),
        decreases ts@.len() - i,
    {
        let t = ts[i];
        let mut p: usize = 0;
        while p < r.len() && ts[r[p]] >= t
            invariant
                i < ts@.len(),
                p <= r@.len(),
                forall|a: int| 0 <= a < r@.len() ==> r@[a] < i,
                forall|a: int| 0 <= a < p ==> ts@[(#[trigger] r@[a]) as int] >= t,
            decreases r@.len() - p,
        {
            p = p + 1;
        }
        let ghost old_r = r@;
        proof {
            assert forall|a: int| p <= a < old_r.len() implies ts@[(#[trigger] old_r[a]) as int] < t by {
                if a > p {
                    assert(ts@[old_r[p as int] as int] >= ts@[old_r[a] as int]);
                }
            }
        }
        r.insert(p, i);
        proof {
            assert(r@ =~= old_r.insert(p as int, i));
            assert forall|a: int, b: int| 0 <= a < b < r@.len() implies ts@[(#[trigger] r@[a]) as int]
                >= ts@[(#[trigger] r@[b]) as int] by {
                if b < p {
                    assert(r@[a] == old_r[a] && r@[b] == old_r[b]);
                } else if b == p {
                    assert(r@[a] == old_r[a]);
                } else if a == p {
                    assert(r@[b] == old_r[b - 1]);
                } else if a < p {
                    assert(r@[a] == old_r[a] && r@[b] == old_r[b - 1]);
                } else {
                    assert(r@[a] == old_r[a - 1] && r@[b] == old_r[b - 1]);
                }
            }
            assert forall|a: int, b: int| 0 <= a < b < r@.len() implies r@[a] != r@[b] by {
                if b < p {
                } else if b == p {
                    assert(r@[a] == old_r[a]);
                } else if a == p {
                    assert(r@[b] == old_r[b - 1]);
                } else if a < p {
                    assert(r@[a] == old_r[a] && r@[b] == old_r[b - 1]);
                } else {
                    assert(r@[a] == old_r[a - 1] && r@[b] == old_r[b - 1]);
                }
            }
            assert forall|j: int| 0 <= j < i + 1 implies #[trigger] listed(r@, j) by {
                if j == i {
                    assert(r@[p as int] == j);
                } else {
                    assert(listed(old_r, j));
                    let a = choose|a: int| 0 <= a < old_r.len() && old_r[a] == j;
                    if a < p {
                        assert(r@[a] == j);
                    } else {
                        assert(r@[a + 1] == j);
                    }
                }
            }
        }
        i = i + 1;
    }
    r
}

impl MemoryMailStore {
    /// Newest-first page of the summaries in `folder_id`.
    fn list_messages_in(&self, folder_id: &str, limit: u32, offset: u32) -> (r: Vec<MessageSummary>)
        requires
            self.wf(),
        ensures
            exists|full: Seq<SummaryView>|
                folder_listing(self.messages(), folder_id@, full) && summary_views(r@) == page_of(
                    full,
                    limit as int,
                    offset as int,
                ),
    {
        let mut cands: Vec<MessageSummary> = Vec::new();
        let mut ts: Vec<i64> = Vec::new();
        let ghost mut src: Seq<int> = Seq::empty();
        let mut i: usize = 0;
        while i < self.messages.len()
            invariant
                self.wf(),
                i <= self.messages@.len(),
                cands@.len() == src.len(),
                ts@.len() == src.len(),
                forall|c: int|
                    0 <= c < src.len() ==> 0 <= #[trigger] src[c] < i && cands@[c]@ == self.messages@[src[c]].summary@
                        && ts@[c] == cands@[c].received_at && cands@[c].folder_id@ == folder_id@,
                forall|c: int, d: int| 0 <= c < d < src.len() ==> #[trigger] src[c] < #[trigger] src[d],
                forall|j: int|
                    0 <= j < i && (#[trigger] self.messages@[j]).summary.folder_id@ == folder_id@ ==> exists|c: int|
                        0 <= c < src.len() && src[c] == j,
            decreases self.messages@.len() - i,
        {
            let ghost old_src = src;
            if str_eq(self.messages[i].summary.folder_id.as_str(), folder_id) {
                let s = self.messages[i].summary.clone();
                ts.push(s.received_at);
                cands.push(s);
                proof {
                    src = src.push(i as int);
                }
            }
            proof {
                assert forall|j: int|
                    0 <= j < i + 1 && (#[trigger] self.messages@[j]).summary.folder_id@ == folder_id@ implies exists|c: int|
                    0 <= c < src.len() && src[c] == j by {
                    if j == i {
                        assert(src[src.len() - 1] == j);
                    } else {
                        let c = choose|c: int| 0 <= c < old_src.len() && old_src[c] == j;
                        assert(src[c] == j);
                    }
                }
            }
            i = i + 1;
        }
        let order = order_newest_first(&ts);
        let n = order.len();
        let start: usize = offset as usize;
        let ghost full: Seq<SummaryView> = Seq::new(n as nat, |a: int| cands@[order@[a] as int]@);
        let end: usize = if start >= n {
            start
        } else if n - start <= limit as usize {
            n
        } else {
            start + limit as usize
        };
        let mut out: Vec<MessageSummary> = Vec::new();
        if start < n {
            let mut a: usize = start;
            while a < end
                invariant
                    start <= a <= end <= n,
                    n == order@.len(),
                    order@.len() == cands@.len(),
                    forall|x: int| 0 <= x < order@.len() ==> order@[x] < cands@.len(),
                    full == Seq::new(n as nat, |x: int| cands@[order@[x] as int]@),
                    summary_views(out@) =~= full.subrange(start as int, a as int),
                decreases end - a,
            {
                let ghost before = summary_views(out@);
                let s = cands[order[a]].clone();
                out.push(s);
                assert(full[a as int] == cands@[order@[a as int] as int]@);
                assert(summary_views(out@) =~= before.push(full[a as int]));
                a = a + 1;
            }
        }
        proof {
            let msgs = message_views(self.messages@);
            lemma_to_map_char(msgs, msg_key());
            let map = self.messages();
            assert forall|x: int| 0 <= x < full.len() implies map.contains_key((#[trigger] full[x]).id)
                && map[full[x].id].summary == full[x] && full[x].folder_id == folder_id@ by {
                let c = order@[x] as int;
                let j = src[c];
                assert(msgs[j] == self.messages@[j]@);
                assert(to_map(msgs, msg_key())[msg_key()(msgs[j])] == msgs[j]);
                assert(exists|q: int| 0 <= q < msgs.len() && msg_key()(msgs[q]) == msg_key()(msgs[j]));
            }
            assert forall|k: Seq<char>| #[trigger] map.contains_key(k) && map[k].summary.folder_id == folder_id@ implies exists|x: int|
                0 <= x < full.len() && full[x].id == k by {
                let j = choose|j: int| 0 <= j < msgs.len() && msg_key()(msgs[j]) == k;
                assert(msgs[j] == self.messages@[j]@);
                assert(map[msg_key()(msgs[j])] == msgs[j]);
                assert(self.messages@[j].summary.folder_id@ == folder_id@);
                let c = choose|c: int| 0 <= c < src.len() && src[c] == j;
                assert(listed(order@, c));
                let x = choose|x: int| 0 <= x < order@.len() && order@[x] == c;
                assert(full[x].id == k);
            }
            assert forall|x: int, y: int| 0 <= x < y < full.len() implies (#[trigger] full[x]).id != (
            #[trigger] full[y]).id by {
                let cx = order@[x] as int;
                let cy = order@[y] as int;
                assert(cx != cy);
                if cx < cy {
                    assert(src[cx] < src[cy]);
                } else {
                    assert(src[cy] < src[cx]);
                }
                assert(msgs[src[cx]] == self.messages@[src[cx]]@);
                assert(msgs[src[cy]] == self.messages@[src[cy]]@);
            }
            assert forall|x: int, y: int| 0 <= x < y < full.len() implies (#[trigger] full[x]).received_at >= (
            #[trigger] full[y]).received_at by {
                let cx = order@[x] as int;
                let cy = order@[y] as int;
                assert(0 <= src[cx] && 0 <= src[cy]);
                assert(ts@[cx] >= ts@[cy]);
            }
            assert(folder_listing(map, folder_id@, full));
            if start >= n {
                assert(summary_views(out@) =~= page_of(full, limit as int, offset as int));
            } else if n - start <= limit as usize {
                assert(summary_views(out@) =~= page_of(full, limit as int, offset as int));
            } else {
                assert(summary_views(out@) =~= page_of(full, limit as int, offset as int));
            }
        }
        out
    }

    /// Store `m` under its id, replacing any message already there.
    fn put_message_fresh_or_replace(&mut self, m: Message)
        requires
            old(self).wf(),
        ensures
            final(self).wf(),
            final(self).messages() == old(self).messages().insert(m.summary.id@, m@),
            final(self).folders() == old(self).folders(),
    {
        match self.find_message(m.summary.id.as_str()) {
            Some(i) => {
                self.replace_message(i, m);
            },
            None => {
                proof {
                    self.lemma_message_absent(m.summary.id@);
                    lemma_to_map_push(message_views(self.messages@), msg_key(), m@);
                }
                let ghost vs = message_views(self.messages@);
                self.messages.push(m);
                assert(message_views(self.messages@) =~= vs.push(m@));
            },
        }
    }

    fn message_exists_in(&self, id: &str, internet_message_id: Option<&str>) -> (b: bool)
        requires
            self.wf(),
        ensures
            b == (self.messages().contains_key(id@) || match internet_message_id {
                Some(imid) => has_message_id(self.messages(), imid@),
                None => false,
            }),
    {
        let ghost msgs = message_views(self.messages@);
        proof {
            lemma_to_map_char(msgs, msg_key());
        }
        if let Some(i) = self.find_message(id) {
            proof {
                self.lemma_message_index(i as int);
            }
            return true;
        }
        proof {
            self.lemma_message_absent(id@);
        }
        let imid = match internet_message_id {
            Some(x) => x,
            None => {
                return false;
            },
        };
        let mut j: usize = 0;
        while j < self.messages.len()
            invariant
                self.wf(),
                j <= self.messages@.len(),
                !self.messages().contains_key(id@),
                internet_message_id == Some(imid),
                forall|q: int| 0 <= q < j ==> (#[trigger] self.messages@[q])@.internet_message_id != Some(imid@),
            decreases self.messages@.len() - j,
        {
            let hit = match &self.messages[j].internet_message_id {
                Some(s) => str_eq(s.as_str(), imid),
                None => false,
            };
            if hit {
                proof {
                    self.lemma_message_index(j as int);
                    let k = self.messages@[j as int].summary.id@;
                    assert(self.messages().contains_key(k) && self.messages()[k].internet_message_id == Some(imid@));
                    assert(has_message_id(self.messages(), imid@));
                }
                return true;
            }
            j = j + 1;
        }
        proof {
            if has_message_id(self.messages(), imid@) {
                let k = choose|k: Seq<char>|
                    self.messages().contains_key(k) && (#[trigger] self.messages()[k]).internet_message_id == Some(imid@);
                let q = choose|q: int| 0 <= q < msgs.len() && msg_key()(msgs[q]) == k;
                assert(msgs[q] == self.messages@[q]@);
                assert(self.messages()[msg_key()(msgs[q])] == msgs[q]);
            }
        }
        false
    }

    fn broken_summary_ids_in(&self, limit: u32) -> (r: Vec<String>)
        requires
            self.wf(),
        ensures
            broken_listing(self.messages(), limit, r@),
    {
        let ghost vs = message_views(self.messages@);
        proof {
            lemma_to_map_char(vs, msg_key());
        }
        let mut r: Vec<String> = Vec::new();
        let mut j: usize = 0;
        while j < self.messages.len() && r.len() < limit as usize
            invariant
                self.wf(),
                vs == message_views(self.messages@),
                j <= self.messages@.len(),
                r@.len() <= limit,
                forall|i: int|
                    0 <= i < r@.len() ==> self.messages().contains_key((#[trigger] r@[i])@) && partial_event(
                        self.messages()[r@[i]@].summary,
                    ),
                forall|i: int|
                    0 <= i < r@.len() ==> exists|q: int| 0 <= q < j && (#[trigger] r@[i])@ == vs[q].summary.id,
                forall|a: int, b: int| 0 <= a < b < r@.len() ==> (#[trigger] r@[a])@ != (#[trigger] r@[b])@,
                forall|q: int|
                    0 <= q < j && partial_event(#[trigger] vs[q].summary) ==> exists|i: int|
                        0 <= i < r@.len() && r@[i]@ == vs[q].summary.id,
            decreases self.messages@.len() - j,
        {
            let s = &self.messages[j].summary;
            assert(vs[j as int] == self.messages@[j as int]@);
            if s.from_address.as_str().is_empty() && s.received_at == 0 {
                proof {
                    self.lemma_message_index(j as int);
                }
                let ghost prev = r@;
                r.push(s.id.clone());
                proof {
                    assert(r@[prev.len() as int]@ == vs[j as int].summary.id);
                    assert forall|i: int| 0 <= i < prev.len() implies r@[i]@ != vs[j as int].summary.id by {
                        assert(r@[i] == prev[i]);
                        let q = choose|q: int| 0 <= q < j && prev[i]@ == vs[q].summary.id;
                        assert(msg_key()(vs[q]) != msg_key()(vs[j as int]));
                    }
                    assert forall|i: int|
                        0 <= i < r@.len() implies exists|q: int| 0 <= q < j + 1 && (#[trigger] r@[i])@
                            == vs[q].summary.id by {
                        if i < prev.len() {
                            assert(r@[i] == prev[i]);
                            let q = choose|q: int| 0 <= q < j && prev[i]@ == vs[q].summary.id;
                            assert(0 <= q < j + 1);
                        } else {
                            assert(0 <= j < j + 1);
                        }
                    }
                    assert forall|q: int|
                        0 <= q < j + 1 && partial_event(#[trigger] vs[q].summary) implies exists|i: int|
                            0 <= i < r@.len() && r@[i]@ == vs[q].summary.id by {
                        if q < j {
                            let i = choose|i: int| 0 <= i < prev.len() && prev[i]@ == vs[q].summary.id;
                            assert(r@[i] == prev[i]);
                        } else {
                            assert(r@[prev.len() as int]@ == vs[q].summary.id);
                        }
                    }
                }
            } else {
                proof {
                    assert forall|i: int|
                        0 <= i < r@.len() implies exists|q: int| 0 <= q < j + 1 && (#[trigger] r@[i])@
                            == vs[q].summary.id by {
                        let q = choose|q: int| 0 <= q < j && r@[i]@ == vs[q].summary.id;
                        assert(0 <= q < j + 1);
                    }
                }
            }
            j = j + 1;
        }
        proof {
            if r@.len() < limit {
                assert(j == self.messages@.len());
                assert forall|k: Seq<char>|
                    self.messages().contains_key(k) && partial_event(
                        #[trigger] self.messages()[k].summary,
                    ) implies exists|i: int| 0 <= i < r@.len() && r@[i]@ == k by {
                    let q = choose|q: int| 0 <= q < vs.len() && msg_key()(vs[q]) == k;
                    assert(self.messages()[msg_key()(vs[q])] == vs[q]);
                    assert(partial_event(vs[q].summary));
                }
            }
        }
        r
    }
}

} // verus!
verus! {

/// Ids of messages whose summary a partial event blanked: all of them when
/// there are fewer than `limit`, else `limit` of them; each once, in no
/// particular order.
pub open spec fn broken_listing(ms: Map<Seq<char>, MessageView>, limit: u32, r: Seq<String>) -> bool {
    &&& r.len() <= limit
    &&& forall|i: int|
        0 <= i < r.len() ==> ms.contains_key((#[trigger] r[i])@) && partial_event(ms[r[i]@].summary)
    &&& forall|a: int, b: int| 0 <= a < b < r.len() ==> (#[trigger] r[a])@ != (#[trigger] r[b])@
    &&& r.len() < limit ==> forall|k: Seq<char>|
        ms.contains_key(k) && partial_event(#[trigger] ms[k].summary) ==> exists|i: int|
            0 <= i < r.len() && r[i]@ == k
}

/// Unread messages of folder `f` among `ms`.
pub open spec fn unread_in(ms: Seq<MessageView>, f: Seq<char>) -> nat
    decreases ms.len(),
{
    if ms.len() == 0 {
        0
    } else {
        unread_in(ms.drop_last(), f) + if !ms.last().summary.is_read && ms.last().summary.folder_id == f {
            1nat
        } else {
            0nat
        }
    }
}

/// A count as a `u32`, saturating.
pub open spec fn capped(n: nat) -> u32 {
    if n > u32::MAX {
        u32::MAX
    } else {
        n as u32
    }
}

/// In a name-ordered list, everything before the slot is named at most
/// `name` and everything from it on is named above it.
proof fn lemma_name_slot(v: Seq<SavedSearchView>, name: Seq<char>)
    requires
        names_ordered(v),
    ensures
        0 <= name_slot(v, name) <= v.len(),
        forall|a: int| 0 <= a < name_slot(v, name) ==> seq_le((#[trigger] v[a]).name, name),
        forall|a: int| name_slot(v, name) <= a < v.len() ==> !seq_le((#[trigger] v[a]).name, name),
    decreases v.len(),
{
    if v.len() > 0 {
        let p = v.drop_last();
        assert(names_ordered(p));
        lemma_name_slot(p, name);
        if seq_le(v.last().name, name) {
            assert forall|a: int| 0 <= a < v.len() implies seq_le((#[trigger] v[a]).name, name) by {
                if a < v.len() - 1 {
                    lemma_seq_le_trans(v[a].name, v.last().name, name);
                }
            }
        } else {
            assert forall|a: int| name_slot(v, name) <= a < v.len() implies !seq_le((#[trigger] v[a]).name, name) by {
                if a < v.len() - 1 {
                    assert(p[a] == v[a]);
                }
            }
            assert forall|a: int| 0 <= a < name_slot(v, name) implies seq_le((#[trigger] v[a]).name, name) by {
                assert(p[a] == v[a]);
            }
        }
    }
}

/// Inserting at the name slot keeps a list name-ordered.
proof fn lemma_insert_name_ordered(sv: Seq<SavedSearchView>, p: int, x: SavedSearchView)
    requires
        names_ordered(sv),
        p == name_slot(sv, x.name),
    ensures
        names_ordered(sv.insert(p, x)),
{
    lemma_name_slot(sv, x.name);
    let nv = sv.insert(p, x);
    assert forall|a: int, b: int| 0 <= a < b < nv.len() implies seq_le((#[trigger] nv[a]).name, (#[trigger] nv[b]).name) by {
        if b < p {
        } else if b == p {
            assert(nv[a] == sv[a]);
        } else if a == p {
            assert(nv[b] == sv[b - 1]);
            lemma_seq_not_le(x.name, sv[b - 1].name);
        } else if a < p {
            assert(nv[a] == sv[a] && nv[b] == sv[b - 1]);
        } else {
            assert(nv[a] == sv[a - 1] && nv[b] == sv[b - 1]);
        }
    }
}

/// Dropping entries keeps a name-ordered list ordered, and keeps only
/// entries of the list.
proof fn lemma_without_saved_ordered(v: Seq<SavedSearchView>, id: i64)
    requires
        names_ordered(v),
    ensures
        names_ordered(without_saved(v, id)),
        forall|a: int| 0 <= a < without_saved(v, id).len() ==> exists|b: int| 0 <= b < v.len() && v[b] == (
        #[trigger] without_saved(v, id)[a]),
    decreases v.len(),
{
    if v.len() > 0 {
        let p = v.drop_last();
        assert(names_ordered(p));
        lemma_without_saved_ordered(p, id);
        let r = without_saved(p, id);
        assert forall|a: int| 0 <= a < r.len() implies exists|b: int| 0 <= b < v.len() && v[b] == (#[trigger] r[a]) by {
            let b = choose|b: int| 0 <= b < p.len() && p[b] == r[a];
            assert(v[b] == p[b]);
        }
        if v.last().id != id {
            let w = r.push(v.last());
            assert forall|a: int, b: int| 0 <= a < b < w.len() implies seq_le((#[trigger] w[a]).name, (#[trigger] w[b]).name) by {
                if b == w.len() - 1 {
                    let c = choose|c: int| 0 <= c < p.len() && p[c] == r[a];
                    assert(v[c] == p[c]);
                } else {
                    assert(w[a] == r[a] && w[b] == r[b]);
                }
            }
            assert forall|a: int| 0 <= a < w.len() implies exists|b: int| 0 <= b < v.len() && v[b] == (#[trigger] w[a]) by {
                if a == w.len() - 1 {
                    assert(v[v.len() - 1] == w[a]);
                } else {
                    assert(w[a] == r[a]);
                }
            }
        }
    }
}

/// Where `key` sits in a list ordered by strictly increasing key: the first
/// slot whose key is not below it, and whether that slot holds it.
fn count_slot(v: &Vec<(String, u32)>, key: &str) -> (r: (usize, bool))
    requires
        forall|a: int, b: int| 0 <= a < b < v@.len() ==> seq_lt((#[trigger] v@[a]).0@, (#[trigger] v@[b]).0@),
    ensures
        r.0 <= v@.len(),
        forall|j: int| 0 <= j < r.0 ==> seq_lt((#[trigger] v@[j]).0@, key@),
        r.1 ==> r.0 < v@.len() && v@[r.0 as int].0@ == key@,
        !r.1 ==> forall|j: int| r.0 <= j < v@.len() ==> seq_lt(key@, (#[trigger] v@[j]).0@),
{
    let mut j: usize = 0;
    while j < v.len() && !str_le(key, v[j].0.as_str())
        invariant
            j <= v@.len(),
            forall|k: int| 0 <= k < j ==> seq_lt((#[trigger] v@[k]).0@, key@),
        decreases v@.len() - j,
    {
        proof {
            lemma_seq_not_le(v@[j as int].0@, key@);
        }
        j = j + 1;
    }
    if j < v.len() && str_eq(v[j].0.as_str(), key) {
        return (j, true);
    }
    proof {
        assert forall|k: int| j <= k < v@.len() implies seq_lt(key@, (#[trigger] v@[k]).0@) by {
            if k > j {
                assert(seq_lt(v@[j as int].0@, v@[k].0@));
                lemma_seq_le_trans(key@, v@[j as int].0@, v@[k].0@);
                if key@ == v@[k].0@ {
                    lemma_seq_le_antisym(v@[j as int].0@, v@[k].0@);
                }
            }
        }
    }
    (j, false)
}

/// Every folder with unread mail listed once, with its unread count (capped
/// at `u32::MAX`), ordered by folder id; folders without unread mail are left
/// out.
pub open spec fn unread_listing(ms: Seq<MessageView>, r: Seq<(String, u32)>) -> bool {
    &&& forall|a: int|
        0 <= a < r.len() ==> unread_in(ms, (#[trigger] r[a]).0@) > 0 && r[a].1 == capped(unread_in(ms, r[a].0@))
    &&& forall|f: Seq<char>| #[trigger] unread_in(ms, f) > 0 ==> exists|a: int| 0 <= a < r.len() && r[a].0@ == f
    &&& forall|a: int, b: int| 0 <= a < b < r.len() ==> seq_lt((#[trigger] r[a]).0@, (#[trigger] r[b]).0@)
}

impl MemoryMailStore {
    /// Unread count per folder over the stored messages, ordered by folder id.
    fn unread_counts_in(&self) -> (r: Vec<(String, u32)>)
        ensures
            unread_listing(self.message_list(), r@),
    {
        let ghost ml = self.message_list();
        let mut out: Vec<(String, u32)> = Vec::new();
        let mut i: usize = 0;
        while i < self.messages.len()
            invariant
                ml == self.message_list(),
                ml.len() == self.messages@.len(),
                i <= ml.len(),
                forall|a: int|
                    0 <= a < out@.len() ==> unread_in(ml.take(i as int), (#[trigger] out@[a]).0@) > 0 && out@[a].1
                        == capped(unread_in(ml.take(i as int), out@[a].0@)),
                forall|f: Seq<char>|
                    #[trigger] unread_in(ml.take(i as int), f) > 0 ==> exists|a: int| 0 <= a < out@.len() && out@[a].0@ == f,
                forall|a: int, b: int| 0 <= a < b < out@.len() ==> seq_lt((#[trigger] out@[a]).0@, (#[trigger] out@[b]).0@),
            decreases ml.len() - i,
        {
            let ghost before = out@;
            proof {
                assert(ml[i as int] == self.messages@[i as int]@);
                assert forall|f: Seq<char>| #[trigger] unread_in(ml.take(i + 1), f) == unread_in(ml.take(i as int), f) + (
                if !ml[i as int].summary.is_read && ml[i as int].summary.folder_id == f {
                    1nat
                } else {
                    0nat
                }) by {
                    assert(ml.take(i + 1).drop_last() =~= ml.take(i as int));
                }
            }
            if !self.messages[i].summary.is_read {
                let g = self.messages[i].summary.folder_id.as_str();
                let (p, found) = count_slot(&out, g);
                if found {
                    let name = out[p].0.clone();
                    let c = out[p].1;
                    out.set(p, (name, c.saturating_add(1)));
                    proof {
                        assert(out@ =~= before.update(p as int, (name, c.saturating_add(1))));
                        assert forall|a: int| 0 <= a < out@.len() && a != p implies (#[trigger] out@[a]).0@ != g@ by {
                            if a < p {
                                assert(seq_lt(before[a].0@, before[p as int].0@));
                            } else {
                                assert(seq_lt(before[p as int].0@, before[a].0@));
                            }
                        }
                        assert forall|f: Seq<char>| #[trigger] unread_in(ml.take(i + 1), f) > 0 implies exists|a: int|
                            0 <= a < out@.len() && out@[a].0@ == f by {
                            if f == g@ {
                                assert(out@[p as int].0@ == f);
                            } else {
                                assert(unread_in(ml.take(i as int), f) > 0);
                                let a = choose|a: int| 0 <= a < before.len() && before[a].0@ == f;
                                assert(out@[a].0@ == before[a].0@);
                            }
                        }
                    }
                } else {
                    let entry = (String::from_str(g), 1u32);
                    out.insert(p, entry);
                    proof {
                        assert(out@ =~= before.insert(p as int, entry));
                        assert forall|a: int, b: int| 0 <= a < b < out@.len() implies seq_lt(
                            (#[trigger] out@[a]).0@,
                            (#[trigger] out@[b]).0@,
                        ) by {
                            if b < p {
                            } else if b == p {
                                assert(out@[a] == before[a]);
                            } else if a == p {
                                assert(out@[b] == before[b - 1]);
                            } else if a < p {
                                assert(out@[a] == before[a] && out@[b] == before[b - 1]);
                                lemma_seq_lt_trans(before[a].0@, g@, before[b - 1].0@);
                            } else {
                                assert(out@[a] == before[a - 1] && out@[b] == before[b - 1]);
                            }
                        }
                        assert forall|a: int| 0 <= a < before.len() implies (#[trigger] before[a]).0@ != g@ by {
                            if a < p {
                            } else {
                            }
                        }
                        assert forall|f: Seq<char>| #[trigger] unread_in(ml.take(i + 1), f) > 0 implies exists|a: int|
                            0 <= a < out@.len() && out@[a].0@ == f by {
                            if f == g@ {
                                assert(out@[p as int].0@ == f);
                            } else {
                                assert(unread_in(ml.take(i as int), f) > 0);
                                let a = choose|a: int| 0 <= a < before.len() && before[a].0@ == f;
                                if a < p {
                                    assert(out@[a] == before[a]);
                                } else {
                                    assert(out@[a + 1] == before[a]);
                                }
                            }
                        }
                    }
                }
            } else {
                proof {
                    assert forall|f: Seq<char>| #[trigger] unread_in(ml.take(i + 1), f) > 0 implies exists|a: int|
                        0 <= a < out@.len() && out@[a].0@ == f by {
                        assert(unread_in(ml.take(i as int), f) > 0);
                    }
                }
            }
            i = i + 1;
        }
        assert(ml.take(ml.len() as int) =~= ml);
        out
    }

    /// Bump send history for `recipients` at `now`.
    fn record_recipients_in(&mut self, recipients: &[(String, String)], now: i64)
        requires
            old(self).wf(),
        ensures
            final(self).wf(),
            final(self).messages() == old(self).messages(),
            final(self).contacts() == recorded(old(self).contacts(), pair_views(recipients@), now),
    {
        let ghost start = self.contacts();
        let mut k: usize = 0;
        while k < recipients.len()
            invariant
                self.wf(),
                k <= recipients@.len(),
                self.messages() == old(self).messages(),
                self.contacts() == recorded(start, pair_views(recipients@).take(k as int), now),
            decreases recipients@.len() - k,
        {
            let ghost before = self.contacts();
            let (address, name) = (&recipients[k].0, &recipients[k].1);
            if is_smtp_address(address.as_str()) {
                let key = to_lowercase(address.as_str());
                let ghost cv = contact_views(self.contacts@);
                proof {
                    lemma_to_map_char(cv, contact_key());
                }
                let mut j: usize = 0;
                while j < self.contacts.len() && !str_eq(self.contacts[j].address.as_str(), key.as_str())
                    invariant
                        j <= self.contacts@.len(),
                        forall|q: int| 0 <= q < j ==> (#[trigger] self.contacts@[q]).address@ != key@,
                    decreases self.contacts@.len() - j,
                {
                    j = j + 1;
                }
                let found = j < self.contacts.len();
                if found && j < self.contacts.len() {
                    let old_c = &self.contacts[j];
                    let c = Contact {
                        address: old_c.address.clone(),
                        name: if name.as_str().is_empty() {
                            old_c.name.clone()
                        } else {
                            name.clone()
                        },
                        uses: old_c.uses.saturating_add(1),
                        last_used: now,
                    };
                    proof {
                        assert(cv[j as int] == self.contacts@[j as int]@);
                        lemma_to_map_update(cv, contact_key(), j as int, c@);
                    }
                    self.contacts.set(j, c);
                    assert(contact_views(self.contacts@) =~= cv.update(j as int, c@));
                    proof {
                        assert(before == to_map(cv, contact_key()));
                        assert(before.contains_key(key@));
                        assert(before[key@] == cv[j as int]);
                        assert(c@.address == key@);
                        assert(c@.name == (if name@.len() > 0 { name@ } else { cv[j as int].name }));
                        assert(c@.uses == (if cv[j as int].uses == u32::MAX { u32::MAX } else { (cv[j as int].uses + 1) as u32 }));
                        assert(self.contacts() == before.insert(key@, c@));
                        assert(smtp_shaped(address@));
                        assert(key@ == unicode_lower(address@));
                        assert(c@.last_used == now);
                        let ghost e = before[key@];
                        let ghost nv = ContactView {
                            address: key@,
                            name: if name@.len() > 0 { name@ } else { e.name },
                            uses: if e.uses == u32::MAX { u32::MAX } else { (e.uses + 1) as u32 },
                            last_used: now,
                        };
                        assert(c@ == nv);
                        assert(record_one(before, address@, name@, now) == before.insert(key@, nv));
                    }
                } else {
                    let c = Contact { address: key, name: name.clone(), uses: 1, last_used: now };
                    proof {
                        if to_map(cv, contact_key()).contains_key(c@.address) {
                            let q = choose|q: int| 0 <= q < cv.len() && contact_key()(cv[q]) == c@.address;
                            assert(cv[q] == self.contacts@[q]@);
                        }
                        lemma_to_map_push(cv, contact_key(), c@);
                    }
                    self.contacts.push(c);
                    assert(contact_views(self.contacts@) =~= cv.push(c@));
                    proof {
                        assert(before == to_map(cv, contact_key()));
                        assert(!before.contains_key(key@));
                        assert(self.contacts() == before.insert(key@, c@));
                        assert(smtp_shaped(address@));
                        assert(key@ == unicode_lower(address@));
                        if name@.len() == 0 {
                            assert(name@ =~= Seq::<char>::empty());
                        }
                        let ghost nv = ContactView {
                            address: key@,
                            name: if name@.len() > 0 { name@ } else { Seq::empty() },
                            uses: 1,
                            last_used: now,
                        };
                        assert(c@ == nv);
                        assert(record_one(before, address@, name@, now) == before.insert(key@, nv));
                    }
                }
            }
            k = k + 1;
            proof {
                let t = pair_views(recipients@).take(k as int);
                assert(t.drop_last() =~= pair_views(recipients@).take(k - 1));
                assert(t.last() == (recipients@[k - 1].0@, recipients@[k - 1].1@));
                assert(self.contacts() =~= record_one(before, recipients@[k - 1].0@, recipients@[k - 1].1@, now));
            }
        }
        assert(pair_views(recipients@).take(recipients@.len() as int) =~= pair_views(recipients@));
    }



    /// (Re)index one non-mail document: any older entry for the same
    /// entity is dropped and the new one appended.
    fn index_document_in(&mut self, entity_type: &str, entity_id: &str, title: &str, subtitle: &str, body: &str, ts: i64)
        requires
            old(self).wf(),
        ensures
            final(self).wf(),
            final(self).messages() == old(self).messages(),
            final(self).documents() == without_doc(old(self).documents(), entity_type@, entity_id@).push(
                DocView {
                    entity_type: entity_type@,
                    entity_id: entity_id@,
                    title: title@,
                    subtitle: subtitle@,
                    body: body@,
                    ts,
                },
            ),
    {
        let mut kept: Vec<MemoryDoc> = Vec::new();
        let mut i: usize = 0;
        let ghost dv = doc_views(self.documents@);
        while i < self.documents.len()
            invariant
                i <= self.documents@.len(),
                dv == doc_views(self.documents@),
                doc_views(kept@) == without_doc(dv.take(i as int), entity_type@, entity_id@),
            decreases self.documents@.len() - i,
        {
            let d = &self.documents[i];
            let ghost prev = doc_views(kept@);
            proof {
                assert(dv.take(i + 1).drop_last() =~= dv.take(i as int));
                assert(dv.take(i + 1).last() == d@);
            }
            if !(str_eq(d.entity_type.as_str(), entity_type) && str_eq(d.entity_id.as_str(), entity_id)) {
                let c = MemoryDoc {
                    entity_type: d.entity_type.clone(),
                    entity_id: d.entity_id.clone(),
                    title: d.title.clone(),
                    subtitle: d.subtitle.clone(),
                    body: d.body.clone(),
                    ts: d.ts,
                };
                kept.push(c);
                assert(doc_views(kept@) =~= prev.push(d@));
            }
            i = i + 1;
        }
        assert(dv.take(dv.len() as int) =~= dv);
        let n = MemoryDoc {
            entity_type: String::from_str(entity_type),
            entity_id: String::from_str(entity_id),
            title: String::from_str(title),
            subtitle: String::from_str(subtitle),
            body: String::from_str(body),
            ts,
        };
        let ghost prev = doc_views(kept@);
        kept.push(n);
        assert(doc_views(kept@) =~= prev.push(n@));
        self.documents = kept;
    }

    /// Saved searches ordered by name (equal names in the order saved).
    fn list_saved_searches_in(&self) -> (r: Vec<SavedSearch>)
        requires
            self.wf(),
        ensures
            saved_views(r@) == self.saved_list(),
            names_ordered(saved_views(r@)),
    {
        let mut r: Vec<SavedSearch> = Vec::new();
        let mut i: usize = 0;
        while i < self.saved_searches.len()
            invariant
                i <= self.saved_searches@.len(),
                saved_views(r@) =~= saved_views(self.saved_searches@).take(i as int),
            decreases self.saved_searches@.len() - i,
        {
            let ghost prev = saved_views(r@);
            let c = self.saved_searches[i].clone();
            r.push(c);
            assert(saved_views(r@) =~= prev.push(c@));
            i = i + 1;
        }
        assert(saved_views(r@) =~= saved_views(self.saved_searches@));
        r
    }

    /// Save a search under the next id and return that id.
    fn save_search_in(&mut self, name: &str, query: &str, filters_json: &str) -> (r: i64)
        requires
            old(self).wf(),
        ensures
            final(self).wf(),
            final(self).messages() == old(self).messages(),
            r == next_saved_id(old(self).last_saved_id()),
            final(self).last_saved_id() == r,
            final(self).saved_list() == old(self).saved_list().insert(
                name_slot(old(self).saved_list(), name@),
                SavedSearchView { id: r, name: name@, query: query@, filters: filters_json@ },
            ),
    {
        let id: i64 = if self.saved_seq == i64::MAX {
            i64::MIN
        } else {
            self.saved_seq + 1
        };
        self.saved_seq = id;
        let ghost sv = saved_views(self.saved_searches@);
        let mut p: usize = self.saved_searches.len();
        assert(sv.take(p as int) =~= sv);
        while p > 0 && !str_le(self.saved_searches[p - 1].name.as_str(), name)
            invariant
                p <= self.saved_searches@.len(),
                sv == saved_views(self.saved_searches@),
                name_slot(sv, name@) == name_slot(sv.take(p as int), name@),
            decreases p,
        {
            proof {
                assert(sv.take(p as int).drop_last() =~= sv.take(p - 1));
                assert(sv.take(p as int).last() == sv[p - 1]);
            }
            p = p - 1;
        }
        proof {
            if p > 0 {
                assert(sv.take(p as int).last() == sv[p - 1]);
                assert(seq_le(sv[p - 1].name, name@));
            } else {
                assert(sv.take(0) =~= Seq::<SavedSearchView>::empty());
            }
            assert(name_slot(sv, name@) == p);
            lemma_name_slot(sv, name@);
        }
        let s = SavedSearch {
            id,
            name: String::from_str(name),
            query: String::from_str(query),
            filters: String::from_str(filters_json),
        };
        self.saved_searches.insert(p, s);
        proof {
            assert(saved_views(self.saved_searches@) =~= sv.insert(p as int, s@));
            lemma_insert_name_ordered(sv, p as int, s@);
        }
        id
    }

    /// Forget the saved search with this id (none is fine).
    fn delete_saved_search_in(&mut self, id: i64)
        requires
            old(self).wf(),
        ensures
            final(self).wf(),
            final(self).messages() == old(self).messages(),
            final(self).saved_list() == without_saved(old(self).saved_list(), id),
    {
        let ghost sv = saved_views(self.saved_searches@);
        let mut kept: Vec<SavedSearch> = Vec::new();
        let mut i: usize = 0;
        while i < self.saved_searches.len()
            invariant
                i <= self.saved_searches@.len(),
                sv == saved_views(self.saved_searches@),
                saved_views(kept@) == without_saved(sv.take(i as int), id),
            decreases self.saved_searches@.len() - i,
        {
            let ghost prev = saved_views(kept@);
            proof {
                assert(sv.take(i + 1).drop_last() =~= sv.take(i as int));
                assert(sv.take(i + 1).last() == self.saved_searches@[i as int]@);
            }
            if self.saved_searches[i].id != id {
                let c = self.saved_searches[i].clone();
                kept.push(c);
                assert(saved_views(kept@) =~= prev.push(c@));
            }
            i = i + 1;
        }
        assert(sv.take(sv.len() as int) =~= sv);
        proof {
            lemma_without_saved_ordered(sv, id);
        }
        self.saved_searches = kept;
    }
}

} // verus!
verus! {

/// A search hit as plain values.
pub struct HitView {
    pub entity_type: Seq<char>,
    pub entity_id: Seq<char>,
    pub title: Seq<char>,
    pub snippet: Seq<char>,
    pub ts: i64,
    pub summary: Option<SummaryView>,
}

impl View for SearchHit {
    type V = HitView;

    open spec fn view(&self) -> HitView {
        HitView {
            entity_type: self.entity_type@,
            entity_id: self.entity_id@,
            title: self.title@,
            snippet: self.snippet@,
            ts: self.ts,
            summary: match self.summary {
                Some(s) => Some(s@),
                None => None,
            },
        }
    }
}

pub open spec fn hit_views(v: Seq<SearchHit>) -> Seq<HitView> {
    v.map_values(|h: SearchHit| h@)
}

/// The lowercase words of a query.
pub open spec fn search_tokens(query: Seq<char>) -> Seq<Seq<char>> {
    words(query).map_values(|w: Seq<char>| unicode_lower(w))
}

/// Every token occurs in the lowercase text.
pub open spec fn matches_all(tokens: Seq<Seq<char>>, text: Seq<char>) -> bool {
    forall|i: int| 0 <= i < tokens.len() ==> contains(unicode_lower(text), #[trigger] tokens[i])
}

/// A message summary passes every filter chip that is set.
pub open spec fn passes(f: SearchFilters, s: SummaryView) -> bool {
    &&& (f.folder_id matches Some(x) ==> s.folder_id == x@)
    &&& (f.unread_only ==> !s.is_read)
    &&& (f.has_attachments ==> s.has_attachments)
    &&& (f.flagged_only ==> s.flag_status == "flagged"@)
    &&& (f.from matches Some(x) ==> contains(unicode_lower(s.from_address), unicode_lower(x@)) || contains(
        unicode_lower(s.from_name),
        unicode_lower(x@),
    ))
    &&& (f.date_from matches Some(d) ==> s.received_at >= d)
    &&& (f.date_to matches Some(d) ==> s.received_at <= d)
}

/// What a message is searched by: subject, sender name and address,
/// preview and the body's plain text, space-separated.
pub open spec fn mail_text(m: MessageView) -> Seq<char> {
    let sp = seq![' '];
    m.summary.subject + sp + m.summary.from_name + sp + m.summary.from_address + sp + m.summary.preview + sp
        + match m.body_html {
        Some(b) => plain_text(b),
        None => Seq::empty(),
    }
}

/// What a document is searched by: title, subtitle and body.
pub open spec fn doc_text(d: DocView) -> Seq<char> {
    d.title + seq![' '] + d.subtitle + seq![' '] + d.body
}

pub open spec fn mail_hit(s: SummaryView) -> HitView {
    HitView {
        entity_type: "mail"@,
        entity_id: s.id,
        title: s.subject,
        snippet: s.preview,
        ts: s.received_at,
        summary: Some(s),
    }
}

pub open spec fn doc_hit(d: DocView) -> HitView {
    HitView { entity_type: d.entity_type, entity_id: d.entity_id, title: d.title, snippet: d.body, ts: d.ts, summary: None }
}

/// Mail hits: the messages that pass the filters and, for a non-empty
/// query, match every token.
pub open spec fn mail_hits(ms: Seq<MessageView>, tokens: Seq<Seq<char>>, f: SearchFilters) -> Seq<HitView>
    decreases ms.len(),
{
    if ms.len() == 0 {
        Seq::empty()
    } else {
        let rest = mail_hits(ms.drop_last(), tokens, f);
        let m = ms.last();
        if passes(f, m.summary) && (tokens.len() == 0 || matches_all(tokens, mail_text(m))) {
            rest.push(mail_hit(m.summary))
        } else {
            rest
        }
    }
}

/// Document hits: the documents that match every token.
pub open spec fn doc_hits(ds: Seq<DocView>, tokens: Seq<Seq<char>>) -> Seq<HitView>
    decreases ds.len(),
{
    if ds.len() == 0 {
        Seq::empty()
    } else {
        let rest = doc_hits(ds.drop_last(), tokens);
        if matches_all(tokens, doc_text(ds.last())) {
            rest.push(doc_hit(ds.last()))
        } else {
            rest
        }
    }
}

/// Everything a search can return before ranking: mail hits, then, for a
/// plain query with no filter chip, document hits.
pub open spec fn search_candidates(ms: Seq<MessageView>, ds: Seq<DocView>, tokens: Seq<Seq<char>>, f: SearchFilters) -> Seq<
    HitView,
> {
    mail_hits(ms, tokens, f) + if no_filters(f) && tokens.len() > 0 {
        doc_hits(ds, tokens)
    } else {
        Seq::empty()
    }
}

/// `full` holds the items of `items` once each, at the positions `perm`
/// gives.
pub open spec fn reorders<T>(full: Seq<T>, items: Seq<T>, perm: Seq<int>) -> bool {
    &&& full.len() == items.len()
    &&& perm.len() == items.len()
    &&& forall|a: int| 0 <= a < full.len() ==> 0 <= #[trigger] perm[a] < items.len() && full[a] == items[perm[a]]
    &&& forall|a: int, b: int| 0 <= a < b < perm.len() ==> #[trigger] perm[a] != #[trigger] perm[b]
}

pub open spec fn newest_first(v: Seq<HitView>) -> bool {
    forall|a: int, b: int| 0 <= a < b < v.len() ==> (#[trigger] v[a]).ts >= (#[trigger] v[b]).ts
}

pub open spec fn min_len(limit: u32, n: nat) -> int {
    if n <= limit {
        n as int
    } else {
        limit as int
    }
}

fn clone_hit(h: &SearchHit) -> (r: SearchHit)
    ensures
        r@ == h@,
{
    SearchHit {
        entity_type: h.entity_type.clone(),
        entity_id: h.entity_id.clone(),
        title: h.title.clone(),
        snippet: h.snippet.clone(),
        ts: h.ts,
        summary: match &h.summary {
            Some(s) => Some(s.clone()),
            None => None,
        },
    }
}

/// The lowercase words of `query`.
fn query_tokens(query: &str) -> (r: Vec<Vec<char>>)
    ensures
        views(r@) == search_tokens(query@),
{
    let q = chars_of(query);
    let ws = split_whitespace(q.as_slice());
    let mut r: Vec<Vec<char>> = Vec::new();
    let mut i: usize = 0;
    while i < ws.len()
        invariant
            i <= ws@.len(),
            views(ws@) == words(query@),
            views(r@) =~= search_tokens(query@).take(i as int),
        decreases ws@.len() - i,
    {
        let ghost prev = views(r@);
        let w = string_of(ws[i].as_slice());
        let l = to_lowercase(w.as_str());
        let lc = chars_of(l.as_str());
        proof {
            assert(views(ws@)[i as int] == ws@[i as int]@);
        }
        r.push(lc);
        assert(views(r@) =~= prev.push(unicode_lower(ws@[i as int]@)));
        i = i + 1;
    }
    r
}

/// Lowercase `text` and test that it holds every token.
fn holds_all(tokens: &Vec<Vec<char>>, text: &[char]) -> (r: bool)
    ensures
        r == matches_all(views(tokens@), text@),
{
    let s = string_of(text);
    let l = to_lowercase(s.as_str());
    let h = chars_of(l.as_str());
    let mut i: usize = 0;
    while i < tokens.len()
        invariant
            i <= tokens@.len(),
            h@ == unicode_lower(text@),
            forall|j: int| 0 <= j < i ==> contains(h@, #[trigger] views(tokens@)[j]),
        decreases tokens@.len() - i,
    {
        proof {
            assert(views(tokens@)[i as int] == tokens@[i as int]@);
        }
        if !contains_chars(h.as_slice(), tokens[i].as_slice()) {
            return false;
        }
        i = i + 1;
    }
    true
}

/// Case-insensitive containment, as the `from` chip tests it.
fn contains_lower(hay: &str, needle: &str) -> (r: bool)
    ensures
        r == contains(unicode_lower(hay@), unicode_lower(needle@)),
{
    let h = to_lowercase(hay);
    let n = to_lowercase(needle);
    let hc = chars_of(h.as_str());
    let nc = chars_of(n.as_str());
    contains_chars(hc.as_slice(), nc.as_slice())
}

fn passes_filters(f: &SearchFilters, s: &MessageSummary) -> (r: bool)
    ensures
        r == passes(*f, s@),
{
    let folder_ok = match &f.folder_id {
        Some(x) => str_eq(s.folder_id.as_str(), x.as_str()),
        None => true,
    };
    let from_ok = match &f.from {
        Some(x) => contains_lower(s.from_address.as_str(), x.as_str()) || contains_lower(
            s.from_name.as_str(),
            x.as_str(),
        ),
        None => true,
    };
    let from_date_ok = match f.date_from {
        Some(d) => s.received_at >= d,
        None => true,
    };
    let to_date_ok = match f.date_to {
        Some(d) => s.received_at <= d,
        None => true,
    };
    folder_ok && (!f.unread_only || !s.is_read) && (!f.has_attachments || s.has_attachments) && (!f.flagged_only
        || str_eq(s.flag_status.as_str(), "flagged")) && from_ok && from_date_ok && to_date_ok
}

fn mail_text_of(m: &Message) -> (r: Vec<char>)
    ensures
        r@ == mail_text(m@),
{
    let s = &m.summary;
    let mut t = chars_of(s.subject.as_str());
    t.push(' ');
    append_chars(&mut t, chars_of(s.from_name.as_str()).as_slice());
    t.push(' ');
    append_chars(&mut t, chars_of(s.from_address.as_str()).as_slice());
    t.push(' ');
    append_chars(&mut t, chars_of(s.preview.as_str()).as_slice());
    t.push(' ');
    match &m.body_html {
        Some(b) => {
            let plain = html_to_text(b.as_str());
            append_chars(&mut t, chars_of(plain.as_str()).as_slice());
        },
        None => {},
    }
    assert(t@ =~= mail_text(m@));
    t
}

fn doc_text_of(d: &MemoryDoc) -> (r: Vec<char>)
    ensures
        r@ == doc_text(d@),
{
    let mut t = chars_of(d.title.as_str());
    t.push(' ');
    append_chars(&mut t, chars_of(d.subtitle.as_str()).as_slice());
    t.push(' ');
    append_chars(&mut t, chars_of(d.body.as_str()).as_slice());
    assert(t@ =~= doc_text(d@));
    t
}

impl MemoryMailStore {
    /// Filtered, token-matched hits, newest first, at most `limit`.
    fn search_in(&self, query: &str, filters: &SearchFilters, limit: u32) -> (r: Vec<SearchHit>)
        ensures
            exists|full: Seq<HitView>, perm: Seq<int>|
                reorders(
                    full,
                    search_candidates(self.message_list(), self.documents(), search_tokens(query@), *filters),
                    perm,
                ) && newest_first(full) && hit_views(r@) == full.take(min_len(limit, full.len())),
    {
        let toks = query_tokens(query);
        let ghost tv = search_tokens(query@);
        let ghost ml = self.message_list();
        let mut cands: Vec<SearchHit> = Vec::new();
        let mut i: usize = 0;
        while i < self.messages.len()
            invariant
                ml == self.message_list(),
                ml.len() == self.messages@.len(),
                views(toks@) == tv,
                i <= ml.len(),
                hit_views(cands@) == mail_hits(ml.take(i as int), tv, *filters),
            decreases ml.len() - i,
        {
            let m = &self.messages[i];
            let ghost prev = hit_views(cands@);
            proof {
                assert(ml.take(i + 1).drop_last() =~= ml.take(i as int));
                assert(ml.take(i + 1).last() == m@);
            }
            if passes_filters(filters, &m.summary) {
                let hit = if toks.len() == 0 {
                    true
                } else {
                    let text = mail_text_of(m);
                    holds_all(&toks, text.as_slice())
                };
                if hit {
                    let s = &m.summary;
                    let h = SearchHit {
                        entity_type: String::from_str("mail"),
                        entity_id: s.id.clone(),
                        title: s.subject.clone(),
                        snippet: s.preview.clone(),
                        ts: s.received_at,
                        summary: Some(s.clone()),
                    };
                    cands.push(h);
                    assert(hit_views(cands@) =~= prev.push(mail_hit(m@.summary)));
                }
            }
            i = i + 1;
        }
        assert(ml.take(ml.len() as int) =~= ml);
        let ghost dv = self.documents();
        if filters.is_empty() && toks.len() > 0 {
            let mut j: usize = 0;
            while j < self.documents.len()
                invariant
                    dv == self.documents(),
                    dv.len() == self.documents@.len(),
                    views(toks@) == tv,
                    j <= dv.len(),
                    hit_views(cands@) == mail_hits(ml, tv, *filters) + doc_hits(dv.take(j as int), tv),
                decreases dv.len() - j,
            {
                let d = &self.documents[j];
                let ghost prev = hit_views(cands@);
                proof {
                    assert(dv.take(j + 1).drop_last() =~= dv.take(j as int));
                    assert(dv.take(j + 1).last() == d@);
                }
                let text = doc_text_of(d);
                if holds_all(&toks, text.as_slice()) {
                    let h = SearchHit {
                        entity_type: d.entity_type.clone(),
                        entity_id: d.entity_id.clone(),
                        title: d.title.clone(),
                        snippet: d.body.clone(),
                        ts: d.ts,
                        summary: None,
                    };
                    cands.push(h);
                    assert(hit_views(cands@) =~= prev.push(doc_hit(d@)));
                } else {
                    assert(hit_views(cands@) =~= prev);
                }
                j = j + 1;
            }
            assert(dv.take(dv.len() as int) =~= dv);
        } else {
            assert(hit_views(cands@) =~= mail_hits(ml, tv, *filters) + Seq::<HitView>::empty());
        }
        let ghost cv = hit_views(cands@);
        assert(cv == search_candidates(ml, dv, tv, *filters));
        let mut ts: Vec<i64> = Vec::new();
        let mut k: usize = 0;
        while k < cands.len()
            invariant
                k <= cands@.len(),
                ts@.len() == k,
                forall|c: int| 0 <= c < k ==> ts@[c] == (#[trigger] cands@[c]).ts,
            decreases cands@.len() - k,
        {
            ts.push(cands[k].ts);
            k = k + 1;
        }
        let order = order_newest_first(&ts);
        let n = order.len();
        let take: usize = if n <= limit as usize {
            n
        } else {
            limit as usize
        };
        let ghost full: Seq<HitView> = Seq::new(n as nat, |a: int| cv[order@[a] as int]);
        let ghost perm: Seq<int> = Seq::new(n as nat, |a: int| order@[a] as int);
        let mut out: Vec<SearchHit> = Vec::new();
        let mut a: usize = 0;
        while a < take
            invariant
                a <= take <= n,
                n == order@.len(),
                order@.len() == cands@.len(),
                cv == hit_views(cands@),
                forall|x: int| 0 <= x < order@.len() ==> order@[x] < cands@.len(),
                full == Seq::new(n as nat, |x: int| cv[order@[x] as int]),
                hit_views(out@) =~= full.take(a as int),
            decreases take - a,
        {
            let ghost before = hit_views(out@);
            let h = clone_hit(&cands[order[a]]);
            out.push(h);
            assert(hit_views(out@) =~= before.push(full[a as int]));
            a = a + 1;
        }
        proof {
            assert forall|x: int, y: int| 0 <= x < y < full.len() implies (#[trigger] full[x]).ts >= (
            #[trigger] full[y]).ts by {
                assert(ts@[order@[x] as int] >= ts@[order@[y] as int]);
                assert(cands@[order@[x] as int].ts == ts@[order@[x] as int]);
                assert(cands@[order@[y] as int].ts == ts@[order@[y] as int]);
            }
            assert(reorders(full, cv, perm));
            assert(hit_views(out@) == full.take(min_len(limit, full.len())));
        }
        out
    }
}

} // verus!
verus! {

/// A suggestion candidate: (address, name, score).
pub type Scored = (Seq<char>, Seq<char>, u64);

pub open spec fn recipient_matches(addr: Seq<char>, name: Seq<char>, q: Seq<char>) -> bool {
    contains(unicode_lower(addr), q) || contains(unicode_lower(name), q)
}

/// Matching send-history entries, each worth ten points per use.
pub open spec fn contact_scores(cs: Seq<ContactView>, q: Seq<char>) -> Seq<Scored>
    decreases cs.len(),
{
    if cs.len() == 0 {
        Seq::empty()
    } else {
        let r = contact_scores(cs.drop_last(), q);
        let c = cs.last();
        if recipient_matches(c.address, c.name, q) {
            r.push((c.address, c.name, (c.uses * 10) as u64))
        } else {
            r
        }
    }
}

/// The position of `addr` in `v`, or -1.
pub open spec fn addr_index(v: Seq<Scored>, addr: Seq<char>) -> int
    decreases v.len(),
{
    if v.len() == 0 {
        -1
    } else if v.last().0 == addr {
        v.len() - 1
    } else {
        addr_index(v.drop_last(), addr)
    }
}

pub open spec fn bump(x: u64) -> u64 {
    if x == u64::MAX {
        x
    } else {
        (x + 1) as u64
    }
}

/// One more point for a sender; a sender not yet listed joins with one
/// point, and an entry without a name takes the sender's.
pub open spec fn add_sender(v: Seq<Scored>, addr: Seq<char>, name: Seq<char>) -> Seq<Scored> {
    let i = addr_index(v, addr);
    if i >= 0 {
        v.update(
            i,
            (
                addr,
                if v[i].1.len() == 0 {
                    name
                } else {
                    v[i].1
                },
                bump(v[i].2),
            ),
        )
    } else {
        v.push((addr, name, 1))
    }
}

/// Add one point per received message whose (lowercase) sender address is
/// a plausible SMTP address matching the query.
pub open spec fn sender_scores(ms: Seq<MessageView>, q: Seq<char>, base: Seq<Scored>) -> Seq<Scored>
    decreases ms.len(),
{
    if ms.len() == 0 {
        base
    } else {
        let acc = sender_scores(ms.drop_last(), q, base);
        let s = ms.last().summary;
        let addr = unicode_lower(s.from_address);
        if smtp_shaped(addr) && recipient_matches(addr, s.from_name, q) {
            add_sender(acc, addr, s.from_name)
        } else {
            acc
        }
    }
}

/// Every scored suggestion for `query`.
pub open spec fn suggestion_pool(cs: Seq<ContactView>, ms: Seq<MessageView>, query: Seq<char>) -> Seq<Scored> {
    sender_scores(ms, unicode_lower(query), contact_scores(cs, unicode_lower(query)))
}

/// Higher score first; equal scores by address.
pub open spec fn ranks_before(x: Scored, y: Scored) -> bool {
    x.2 > y.2 || (x.2 == y.2 && seq_le(x.0, y.0))
}

pub open spec fn ranked(v: Seq<Scored>) -> bool {
    forall|a: int, b: int| 0 <= a < b < v.len() ==> ranks_before(#[trigger] v[a], #[trigger] v[b])
}

pub open spec fn scored_views(v: Seq<(String, String, u64)>) -> Seq<Scored> {
    v.map_values(|t: (String, String, u64)| (t.0@, t.1@, t.2))
}

pub open spec fn suggestion_pairs(v: Seq<Scored>) -> Seq<(Seq<char>, Seq<char>)> {
    v.map_values(|t: Scored| (t.0, t.1))
}

proof fn lemma_ranks_total(x: Scored, y: Scored)
    ensures
        ranks_before(x, y) || ranks_before(y, x),
{
    lemma_seq_le_total(x.0, y.0);
}

proof fn lemma_ranks_trans(x: Scored, y: Scored, z: Scored)
    requires
        ranks_before(x, y),
        ranks_before(y, z),
    ensures
        ranks_before(x, z),
{
    if x.2 == y.2 && y.2 == z.2 {
        lemma_seq_le_trans(x.0, y.0, z.0);
    }
}

/// Indices of `v` in ranking order.
fn order_ranked(v: &Vec<(String, String, u64)>) -> (r: Vec<usize>)
    ensures
        r@.len() == v@.len(),
        forall|a: int| 0 <= a < r@.len() ==> r@[a] < v@.len(),
        forall|a: int, b: int| 0 <= a < b < r@.len() ==> r@[a] != r@[b],
        forall|a: int, b: int|
            0 <= a < b < r@.len() ==> ranks_before(
                scored_views(v@)[(#[trigger] r@[a]) as int],
                scored_views(v@)[(#[trigger] r@[b]) as int],
            ),
        forall|j: int| 0 <= j < v@.len() ==> #[trigger] listed(r@, j),
{
    let ghost sv = scored_views(v@);
    let mut r: Vec<usize> = Vec::new();
    let mut i: usize = 0;
    while i < v.len()
        invariant
            sv == scored_views(v@),
            i <= v@.len(),
            r@.len() == i,
            forall|a: int| 0 <= a < r@.len() ==> r@[a] < i,
            forall|a: int, b: int| 0 <= a < b < r@.len() ==> r@[a] != r@[b],
            forall|a: int, b: int|
                0 <= a < b < r@.len() ==> ranks_before(sv[(#[trigger] r@[a]) as int], sv[(#[trigger] r@[b]) as int]),
            forall|j: int| 0 <= j < i ==> #[trigger] listed(r@, j),
        decreases v@.len() - i,
    {
        let ghost x = sv[i as int];
        let mut p: usize = 0;
        while p < r.len() && !(v[i].2 > v[r[p]].2 || (v[i].2 == v[r[p]].2 && str_le(v[i].0.as_str(), v[r[p]].0.as_str())))
            invariant
                sv == scored_views(v@),
                x == sv[i as int],
                i < v@.len(),
                p <= r@.len(),
                forall|a: int| 0 <= a < r@.len() ==> r@[a] < i,
                forall|a: int| 0 <= a < p ==> ranks_before(sv[(#[trigger] r@[a]) as int], x),
            decreases r@.len() - p,
        {
            proof {
                lemma_ranks_total(x, sv[r@[p as int] as int]);
            }
            p = p + 1;
        }
        let ghost old_r = r@;
        proof {
            assert forall|a: int| p <= a < old_r.len() implies ranks_before(x, sv[(#[trigger] old_r[a]) as int]) by {
                if a > p {
                    lemma_ranks_trans(x, sv[old_r[p as int] as int], sv[old_r[a] as int]);
                }
            }
        }
        r.insert(p, i);
        proof {
            assert(r@ =~= old_r.insert(p as int, i));
            assert forall|a: int, b: int| 0 <= a < b < r@.len() implies ranks_before(
                sv[(#[trigger] r@[a]) as int],
                sv[(#[trigger] r@[b]) as int],
            ) by {
                if b < p {
                    assert(r@[a] == old_r[a] && r@[b] == old_r[b]);
                } else if b == p {
                    assert(r@[a] == old_r[a]);
                } else if a == p {
                    assert(r@[b] == old_r[b - 1]);
                } else if a < p {
                    assert(r@[a] == old_r[a] && r@[b] == old_r[b - 1]);
                } else {
                    assert(r@[a] == old_r[a - 1] && r@[b] == old_r[b - 1]);
                }
            }
            assert forall|a: int, b: int| 0 <= a < b < r@.len() implies r@[a] != r@[b] by {
                if b < p {
                } else if b == p {
                    assert(r@[a] == old_r[a]);
                } else if a == p {
                    assert(r@[b] == old_r[b - 1]);
                } else if a < p {
                    assert(r@[a] == old_r[a] && r@[b] == old_r[b - 1]);
                } else {
                    assert(r@[a] == old_r[a - 1] && r@[b] == old_r[b - 1]);
                }
            }
            assert forall|j: int| 0 <= j < i + 1 implies #[trigger] listed(r@, j) by {
                if j == i {
                    assert(r@[p as int] == j);
                } else {
                    assert(listed(old_r, j));
                    let a = choose|a: int| 0 <= a < old_r.len() && old_r[a] == j;
                    if a < p {
                        assert(r@[a] == j);
                    } else {
                        assert(r@[a + 1] == j);
                    }
                }
            }
        }
        i = i + 1;
    }
    r
}

/// Credit `addr` (named `name`) with one received message.
fn credit_sender(v: &mut Vec<(String, String, u64)>, addr: String, name: &String)
    ensures
        scored_views(final(v)@) == add_sender(scored_views(old(v)@), addr@, name@),
{
    let ghost sv = scored_views(v@);
    let mut p: usize = v.len();
    assert(sv.take(p as int) =~= sv);
    while p > 0 && !str_eq(v[p - 1].0.as_str(), addr.as_str())
        invariant
            p <= v@.len(),
            sv == scored_views(v@),
            addr_index(sv, addr@) == addr_index(sv.take(p as int), addr@),
        decreases p,
    {
        proof {
            assert(sv.take(p as int).drop_last() =~= sv.take(p - 1));
            assert(sv.take(p as int).last() == sv[p - 1]);
        }
        p = p - 1;
    }
    if p > 0 {
        proof {
            assert(sv.take(p as int).last() == sv[p - 1]);
            assert(addr_index(sv, addr@) == p - 1);
        }
        let i = p - 1;
        let old_name = v[i].1.clone();
        let n = if old_name.as_str().is_empty() {
            name.clone()
        } else {
            old_name
        };
        let sc = v[i].2;
        let b = if sc == u64::MAX {
            sc
        } else {
            sc + 1
        };
        v.set(i, (addr, n, b));
        assert(scored_views(v@) =~= add_sender(sv, addr@, name@));
    } else {
        proof {
            assert(sv.take(0) =~= Seq::<Scored>::empty());
        }
        let ghost av = addr@;
        v.push((addr, name.clone(), 1));
        assert(scored_views(v@) =~= add_sender(sv, av, name@));
    }
}

impl MemoryMailStore {
    /// Send history as stored.
    pub closed spec fn contact_list(&self) -> Seq<ContactView> {
        contact_views(self.contacts@)
    }

    /// (address, name) suggestions for `query`, best first, at most `limit`.
    fn search_recipients_in(&self, query: &str, limit: u32) -> (r: Vec<(String, String)>)
        ensures
            exists|full: Seq<Scored>, perm: Seq<int>|
                reorders(full, suggestion_pool(self.contact_list(), self.message_list(), query@), perm) && ranked(
                    full,
                ) && pair_views(r@) == suggestion_pairs(full.take(min_len(limit, full.len()))),
    {
        let ql = to_lowercase(query);
        let q = chars_of(ql.as_str());
        let ghost cl = self.contact_list();
        let ghost ml = self.message_list();
        let mut scored: Vec<(String, String, u64)> = Vec::new();
        let mut i: usize = 0;
        while i < self.contacts.len()
            invariant
                cl == self.contact_list(),
                cl.len() == self.contacts@.len(),
                q@ == unicode_lower(query@),
                i <= cl.len(),
                scored_views(scored@) == contact_scores(cl.take(i as int), q@),
            decreases cl.len() - i,
        {
            let c = &self.contacts[i];
            let ghost prev = scored_views(scored@);
            proof {
                assert(cl.take(i + 1).drop_last() =~= cl.take(i as int));
                assert(cl.take(i + 1).last() == c@);
            }
            let a = to_lowercase(c.address.as_str());
            let n = to_lowercase(c.name.as_str());
            if contains_chars(chars_of(a.as_str()).as_slice(), q.as_slice()) || contains_chars(
                chars_of(n.as_str()).as_slice(),
                q.as_slice(),
            ) {
                let e = (c.address.clone(), c.name.clone(), (c.uses as u64) * 10);
                scored.push(e);
                assert(scored_views(scored@) =~= prev.push((c@.address, c@.name, (c@.uses * 10) as u64)));
            }
            i = i + 1;
        }
        assert(cl.take(cl.len() as int) =~= cl);
        let ghost base = scored_views(scored@);
        let mut j: usize = 0;
        while j < self.messages.len()
            invariant
                ml == self.message_list(),
                ml.len() == self.messages@.len(),
                q@ == unicode_lower(query@),
                j <= ml.len(),
                scored_views(scored@) == sender_scores(ml.take(j as int), q@, base),
            decreases ml.len() - j,
        {
            let s = &self.messages[j].summary;
            proof {
                assert(ml.take(j + 1).drop_last() =~= ml.take(j as int));
                assert(ml.take(j + 1).last() == self.messages@[j as int]@);
            }
            let addr = to_lowercase(s.from_address.as_str());
            if is_smtp_address(addr.as_str()) {
                let al = to_lowercase(addr.as_str());
                let nl = to_lowercase(s.from_name.as_str());
                if contains_chars(chars_of(al.as_str()).as_slice(), q.as_slice()) || contains_chars(
                    chars_of(nl.as_str()).as_slice(),
                    q.as_slice(),
                ) {
                    credit_sender(&mut scored, addr, &s.from_name);
                }
            }
            j = j + 1;
        }
        assert(ml.take(ml.len() as int) =~= ml);
        let ghost pool = scored_views(scored@);
        assert(pool == suggestion_pool(cl, ml, query@));
        let order = order_ranked(&scored);
        let n = order.len();
        let take: usize = if n <= limit as usize {
            n
        } else {
            limit as usize
        };
        let ghost full: Seq<Scored> = Seq::new(n as nat, |a: int| pool[order@[a] as int]);
        let ghost perm: Seq<int> = Seq::new(n as nat, |a: int| order@[a] as int);
        let mut out: Vec<(String, String)> = Vec::new();
        let mut a: usize = 0;
        while a < take
            invariant
                a <= take <= n,
                n == order@.len(),
                order@.len() == scored@.len(),
                pool == scored_views(scored@),
                forall|x: int| 0 <= x < order@.len() ==> order@[x] < scored@.len(),
                full == Seq::new(n as nat, |x: int| pool[order@[x] as int]),
                pair_views(out@) =~= suggestion_pairs(full.take(a as int)),
            decreases take - a,
        {
            let ghost before = pair_views(out@);
            let e = &scored[order[a]];
            let pr = (e.0.clone(), e.1.clone());
            out.push(pr);
            assert(suggestion_pairs(full.take(a + 1)) =~= suggestion_pairs(full.take(a as int)).push(
                (full[a as int].0, full[a as int].1),
            ));
            assert(pair_views(out@) =~= before.push((full[a as int].0, full[a as int].1)));
            a = a + 1;
        }
        proof {
            assert(reorders(full, pool, perm));
            assert(ranked(full));
            assert(pair_views(out@) == suggestion_pairs(full.take(min_len(limit, full.len()))));
        }
        out
    }
}

} // verus!
verus! {

impl Default for MemoryMailStore {
    /// An empty store (see [`MemoryMailStore::new`]).
    fn default() -> (r: Self)
        ensures
            r.wf(),
            r.messages() == Map::<Seq<char>, MessageView>::empty(),
            r.folders() == Map::<Seq<char>, FolderView>::empty(),
            r.sync_states() == Map::<Seq<char>, SyncStateView>::empty(),
            r.saved_list() == Seq::<SavedSearchView>::empty(),
    {
        MemoryMailStore::new()
    }
}

} // verus!
