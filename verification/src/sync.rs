//! Graph delta sync, per folder, as decisions over the store. Fetching a
//! page is the shell's (awaited) work; what a page does to the store, when
//! the cursor moves and when a throttled request is retried are decided
//! here.
//!
//! - Backfill and baseline are one delta walk: the first request filters
//!   `receivedDateTime ge {cutoff}` and ends in the baseline `deltaLink`.
//! - The cursor advances only at round end: it is written exactly when the
//!   terminal `deltaLink` arrives, never for a `nextLink`.
//! - Removals (any reason, moves out of the folder included) delete the
//!   local row.
use vstd::prelude::*;
use crate::store::{
    folders_upserted, message_views, upserted, Folder, FolderView, MailStore, MailStoreError, Message,
    MessageView, SummaryView, SyncState, SyncStateView,
};
use crate::text::{append_chars, chars_of, decimal, decimal_chars, string_of, strings_clone};

verus! {

pub const MAX_THROTTLE_RETRIES: u32 = 5;

/// Cap on a single throttle back-off, in seconds, whatever Retry-After says.
pub const MAX_RETRY_AFTER_SECS: u64 = 60;

#[derive(Debug)]
pub enum SourceError {
    /// The server asked to retry after this many seconds.
    Throttled { retry_after_secs: u64 },
    Unauthorized,
    Http(String),
    Protocol(String),
}

pub open spec fn source_error_text(e: SourceError) -> Seq<char> {
    match e {
        SourceError::Throttled { retry_after_secs } => "throttled by the server; retry after "@ + decimal(
            retry_after_secs as nat,
        ) + "s"@,
        SourceError::Unauthorized => "not signed in or token rejected"@,
        SourceError::Http(m) => "http error: "@ + m@,
        SourceError::Protocol(m) => "protocol error: "@ + m@,
    }
}

impl SourceError {
    /// The error's text.
    pub fn message(&self) -> (r: String)
        ensures
            r@ == source_error_text(*self),
    {
        let r = match self {
            SourceError::Throttled { retry_after_secs } => {
                let mut r = chars_of("throttled by the server; retry after ");
                append_chars(&mut r, decimal_chars(*retry_after_secs).as_slice());
                append_chars(&mut r, chars_of("s").as_slice());
                r
            },
            SourceError::Unauthorized => chars_of("not signed in or token rejected"),
            SourceError::Http(m) => {
                let mut r = chars_of("http error: ");
                append_chars(&mut r, chars_of(m.as_str()).as_slice());
                r
            },
            SourceError::Protocol(m) => {
                let mut r = chars_of("protocol error: ");
                append_chars(&mut r, chars_of(m.as_str()).as_slice());
                r
            },
        };
        string_of(r.as_slice())
    }

    pub fn clone_error(&self) -> (r: SourceError)
        ensures
            r == *self,
    {
        match self {
            SourceError::Throttled { retry_after_secs } => SourceError::Throttled { retry_after_secs: *retry_after_secs },
            SourceError::Unauthorized => SourceError::Unauthorized,
            SourceError::Http(m) => SourceError::Http(m.clone()),
            SourceError::Protocol(m) => SourceError::Protocol(m.clone()),
        }
    }
}

#[derive(Debug)]
pub enum SyncError {
    Source(SourceError),
    Store(MailStoreError),
    Join(String),
}

/// What to fetch next. `Url` carries a Graph-issued `nextLink` or a stored
/// `deltaLink` verbatim; those URLs already encode `$select`/`$filter`.
#[derive(Debug, PartialEq, Eq)]
pub enum DeltaRequest {
    Initial { folder_id: String, since_epoch: i64 },
    Url(String),
}

impl Clone for DeltaRequest {
    fn clone(&self) -> (r: Self)
        ensures
            r == *self,
    {
        match self {
            DeltaRequest::Initial { folder_id, since_epoch } => DeltaRequest::Initial {
                folder_id: folder_id.clone(),
                since_epoch: *since_epoch,
            },
            DeltaRequest::Url(u) => DeltaRequest::Url(u.clone()),
        }
    }
}

#[derive(Debug)]
pub enum PageToken {
    /// `@odata.nextLink`: more pages in this round.
    Next(String),
    /// `@odata.deltaLink`: round complete; this is the next cursor.
    Delta(String),
}

#[derive(Debug)]
pub struct DeltaPage {
    pub messages: Vec<Message>,
    pub removed_ids: Vec<String>,
    pub token: PageToken,
}

#[derive(Debug, Clone, Copy)]
pub struct SyncReport {
    /// True when this run established the baseline (no stored cursor).
    pub initial: bool,
    pub pages: u32,
    pub upserted: u64,
    pub removed: u64,
}

impl Default for SyncReport {
    fn default() -> (r: Self)
        ensures
            !r.initial && r.pages == 0 && r.upserted == 0 && r.removed == 0,
    {
        SyncReport { initial: false, pages: 0, upserted: 0, removed: 0 }
    }
}

pub open spec fn min_secs(a: u64, b: u64) -> u64 {
    if a <= b {
        a
    } else {
        b
    }
}

/// How long to wait before retrying after `err`, or `None` to give up and
/// report it: only a throttle is retried, at most `MAX_THROTTLE_RETRIES`
/// times, each wait capped at `MAX_RETRY_AFTER_SECS`.
pub fn throttle_wait(attempts: u32, err: &SourceError) -> (r: Option<u64>)
    ensures
        r == match err {
            SourceError::Throttled { retry_after_secs } => if attempts < MAX_THROTTLE_RETRIES {
                Some(min_secs(*retry_after_secs, MAX_RETRY_AFTER_SECS))
            } else {
                None::<u64>
            },
            _ => None::<u64>,
        },
{
    match err {
        SourceError::Throttled { retry_after_secs } => {
            if attempts < MAX_THROTTLE_RETRIES {
                if *retry_after_secs <= MAX_RETRY_AFTER_SECS {
                    Some(*retry_after_secs)
                } else {
                    Some(MAX_RETRY_AFTER_SECS)
                }
            } else {
                None
            }
        },
        _ => None,
    }
}

/// The stored cursor of the folder, if any.
pub open spec fn cursor_of(states: Map<Seq<char>, SyncStateView>, folder_id: Seq<char>) -> Option<Seq<char>> {
    if states.contains_key(folder_id) {
        states[folder_id].delta_link
    } else {
        None
    }
}

/// Start a round: (re-)store the folder row, so the messages' folder always
/// resolves, and read the folder's cursor.
pub fn begin_round<S: MailStore>(store: &mut S, folder: &Folder) -> (r: Result<Option<String>, SyncError>)
    requires
        old(store).wf(),
    ensures
        final(store).wf(),
        r is Err ==> r->Err_0 is Store,
        r is Ok ==> final(store).folders() == old(store).folders().insert(folder.id@, folder@),
        r is Ok ==> final(store).messages() == old(store).messages(),
        r is Ok ==> final(store).sync_states() == old(store).sync_states(),
        r matches Ok(c) ==> crate::store::opt_view(c) == cursor_of(old(store).sync_states(), folder.id@),
        old(store).reliable() ==> r is Ok,
        final(store).reliable() == old(store).reliable(),
{
    let ghost f0 = store.folders();
    let f = folder.clone();
    let fs = vec![f];
    proof {
        assert(crate::store::folder_views(fs@) =~= seq![folder@]);
        assert(seq![folder@].drop_last() =~= Seq::<FolderView>::empty());
        assert(folders_upserted(f0, Seq::<FolderView>::empty()) == f0);
        assert(seq![folder@].last() == folder@);
        assert(folders_upserted(f0, seq![folder@]) == f0.insert(folder.id@, folder@));
    }
    match store.upsert_folders(fs.as_slice()) {
        Ok(()) => {},
        Err(e) => {
            return Err(SyncError::Store(e));
        },
    }
    match store.get_sync_state(folder.id.as_str()) {
        Ok(Some(s)) => Ok(s.delta_link),
        Ok(None) => Ok(None),
        Err(e) => Err(SyncError::Store(e)),
    }
}

/// How a round opens: from the stored cursor when there is one; otherwise
/// the shell first asks the server for the backfill cutoff.
pub enum RoundStart {
    Resume(DeltaRequest),
    NeedCutoff,
}

pub fn round_start(cursor: Option<String>) -> (r: RoundStart)
    ensures
        match cursor {
            Some(u) => r matches RoundStart::Resume(DeltaRequest::Url(v)) && v@ == u@,
            None => r is NeedCutoff,
        },
{
    match cursor {
        Some(u) => RoundStart::Resume(DeltaRequest::Url(u)),
        None => RoundStart::NeedCutoff,
    }
}

/// The first request of an initial backfill walk.
pub fn initial_request(folder_id: &str, since_epoch: i64) -> (r: DeltaRequest)
    ensures
        r matches DeltaRequest::Initial { folder_id: f, since_epoch: s } && f@ == folder_id@ && s == since_epoch,
{
    DeltaRequest::Initial { folder_id: String::from_str(folder_id), since_epoch }
}

/// A report for a round that has fetched nothing yet.
pub fn new_report(initial: bool) -> (r: SyncReport)
    ensures
        r.initial == initial && r.pages == 0 && r.upserted == 0 && r.removed == 0,
{
    SyncReport { initial, pages: 0, upserted: 0, removed: 0 }
}

/// The page's messages pinned to the synced folder (the delta is folder
/// scoped).
pub open spec fn pinned(ms: Seq<MessageView>, folder_id: Seq<char>) -> Seq<MessageView> {
    ms.map_values(|m: MessageView| MessageView { summary: SummaryView { folder_id: folder_id, ..m.summary }, ..m })
}

/// The map with each id removed in turn.
pub open spec fn removed_all(map: Map<Seq<char>, MessageView>, ids: Seq<Seq<char>>) -> Map<Seq<char>, MessageView>
    decreases ids.len(),
{
    if ids.len() == 0 {
        map
    } else {
        removed_all(map, ids.drop_last()).remove(ids.last())
    }
}

pub open spec fn sat_add_u64(a: u64, b: int) -> u64 {
    if a + b > u64::MAX {
        u64::MAX
    } else {
        (a + b) as u64
    }
}

/// The report after one more page.
pub open spec fn counted(r: SyncReport, upserts: nat, removals: nat) -> SyncReport {
    SyncReport {
        initial: r.initial,
        pages: if r.pages == u32::MAX {
            u32::MAX
        } else {
            (r.pages + 1) as u32
        },
        upserted: sat_add_u64(r.upserted, upserts as int),
        removed: sat_add_u64(r.removed, removals as int),
    }
}

/// Apply one fetched page: upsert its messages (pinned to the folder),
/// delete its removals, and either follow the `nextLink` or, at the
/// `deltaLink`, store the new cursor (stamped `now`) and end the round.
pub fn apply_page<S: MailStore>(
    store: &mut S,
    folder_id: &str,
    page: DeltaPage,
    report: &mut SyncReport,
    now: i64,
) -> (r: Result<Option<DeltaRequest>, SyncError>)
    requires
        old(store).wf(),
    ensures
        final(store).wf(),
        *final(report) == counted(*old(report), page.messages@.len(), page.removed_ids@.len()),
        r is Err ==> r->Err_0 is Store,
        r is Ok ==> final(store).messages() == removed_all(
            upserted(old(store).messages(), pinned(message_views(page.messages@), folder_id@)),
            crate::store::string_views(page.removed_ids@),
        ),
        r is Ok ==> final(store).folders() == old(store).folders(),
        r is Ok ==> match page.token {
            PageToken::Next(u) => r matches Ok(Some(DeltaRequest::Url(v))) && v@ == u@
                && final(store).sync_states() == old(store).sync_states(),
            PageToken::Delta(u) => r matches Ok(None) && final(store).sync_states()
                == old(store).sync_states().insert(
                folder_id@,
                SyncStateView { folder_id: folder_id@, delta_link: Some(u@), last_synced_at: Some(now) },
            ),
        },
        old(store).reliable() ==> r is Ok,
        final(store).reliable() == old(store).reliable(),
{
    let ghost old_report = *report;
    let n_up = page.messages.len();
    let n_rm = page.removed_ids.len();
    report.pages = report.pages.saturating_add(1);
    report.upserted = report.upserted.saturating_add(n_up as u64);
    report.removed = report.removed.saturating_add(n_rm as u64);
    let DeltaPage { messages, removed_ids, token } = page;
    let ghost mv = message_views(messages@);
    let mut ms = messages;
    let mut i: usize = 0;
    while i < ms.len()
        invariant
            i <= ms@.len(),
            ms@.len() == mv.len(),
            forall|j: int| 0 <= j < i ==> (#[trigger] ms@[j])@ == pinned(mv, folder_id@)[j],
            forall|j: int| i <= j < ms@.len() ==> (#[trigger] ms@[j])@ == mv[j],
        decreases ms@.len() - i,
    {
        let mut m = ms.remove(i);
        m.summary.folder_id = String::from_str(folder_id);
        ms.insert(i, m);
        i = i + 1;
    }
    assert(message_views(ms@) =~= pinned(mv, folder_id@));
    let ghost states = store.sync_states();
    let ghost fs = store.folders();
    match store.upsert_messages(ms.as_slice()) {
        Ok(()) => {},
        Err(e) => {
            return Err(SyncError::Store(e));
        },
    }
    let ghost after_upsert = store.messages();
    let ghost ids = crate::store::string_views(removed_ids@);
    let mut k: usize = 0;
    while k < removed_ids.len()
        invariant
            store.wf(),
            k <= removed_ids@.len(),
            ids == crate::store::string_views(removed_ids@),
            store.messages() == removed_all(after_upsert, ids.take(k as int)),
            store.sync_states() == states,
            store.folders() == fs,
            *report == counted(old_report, n_up as nat, n_rm as nat),
            n_up == page.messages@.len(),
            n_rm == page.removed_ids@.len(),
            old_report == *old(report),
            store.reliable() == old(store).reliable(),
        decreases removed_ids@.len() - k,
    {
        match store.delete_message(removed_ids[k].as_str()) {
            Ok(()) => {},
            Err(e) => {
                return Err(SyncError::Store(e));
            },
        }
        proof {
            assert(ids.take(k + 1).drop_last() =~= ids.take(k as int));
            assert(ids.take(k + 1).last() == removed_ids@[k as int]@);
        }
        k = k + 1;
    }
    assert(ids.take(ids.len() as int) =~= ids);
    match token {
        PageToken::Next(u) => Ok(Some(DeltaRequest::Url(u))),
        PageToken::Delta(u) => {
            let st = SyncState { folder_id: String::from_str(folder_id), delta_link: Some(u), last_synced_at: Some(now) };
            match store.set_sync_state(&st) {
                Ok(()) => Ok(None),
                Err(e) => Err(SyncError::Store(e)),
            }
        },
    }
}

/// A `nextLink` page never moves the cursor; only the round's terminal
/// `deltaLink` does, and it records exactly that link.
pub proof fn law_cursor_moves_only_at_round_end(
    states: Map<Seq<char>, SyncStateView>,
    folder_id: Seq<char>,
    link: Seq<char>,
    now: i64,
)
    ensures
        cursor_of(
            states.insert(folder_id, SyncStateView { folder_id, delta_link: Some(link), last_synced_at: Some(now) }),
            folder_id,
        ) == Some(link),
{
}

/// After a page is applied, none of its removed ids is stored.
pub proof fn law_removals_are_gone(map: Map<Seq<char>, MessageView>, ids: Seq<Seq<char>>, k: int)
    requires
        0 <= k < ids.len(),
    ensures
        !removed_all(map, ids).contains_key(ids[k]),
    decreases ids.len(),
{
    if k < ids.len() - 1 {
        law_removals_are_gone(map, ids.drop_last(), k);
        assert(ids.drop_last()[k] == ids[k]);
    }
}

} // verus!
