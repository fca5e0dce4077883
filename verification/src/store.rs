//! The local mail store's domain: folders, message summaries and full
//! messages, sync cursors, search filters and hits, plus the query builders
//! for local full-text search and Graph server search. The store contract
//! is the [`MailStore`] trait; [`crate::memory_store::MemoryMailStore`] is
//! its verified in-memory model.
use vstd::prelude::*;
use crate::text::{
    append_chars, chars_of, clone_opt_string, join, join_chars, split_whitespace, string_of,
    strings_clone, trim, trim_chars, views, words,
};

verus! {

#[derive(Debug)]
pub enum MailStoreError {
    Db(String),
    Migration(String),
    Io(String),
}

#[derive(Debug, PartialEq, Eq)]
pub struct Folder {
    pub id: String,
    pub display_name: String,
    pub well_known_name: Option<String>,
    pub parent_id: Option<String>,
}

impl Clone for Folder {
    fn clone(&self) -> (r: Self)
        ensures
            r == *self,
    {
        Folder {
            id: self.id.clone(),
            display_name: self.display_name.clone(),
            well_known_name: clone_opt_string(&self.well_known_name),
            parent_id: clone_opt_string(&self.parent_id),
        }
    }
}

/// The cheap projection for list views: everything but the body.
#[derive(Debug, PartialEq, Eq)]
pub struct MessageSummary {
    pub id: String,
    pub folder_id: String,
    pub subject: String,
    pub from_name: String,
    pub from_address: String,
    /// Unix epoch seconds (sortable).
    pub received_at: i64,
    pub preview: String,
    pub is_read: bool,
    pub has_attachments: bool,
    /// Graph `flag.flagStatus`: notFlagged / flagged / complete.
    pub flag_status: String,
    /// Graph `inferenceClassification`: focused / other.
    pub inference_classification: String,
    pub is_draft: bool,
}

impl Clone for MessageSummary {
    fn clone(&self) -> (r: Self)
        ensures
            r == *self,
    {
        MessageSummary {
            id: self.id.clone(),
            folder_id: self.folder_id.clone(),
            subject: self.subject.clone(),
            from_name: self.from_name.clone(),
            from_address: self.from_address.clone(),
            received_at: self.received_at,
            preview: self.preview.clone(),
            is_read: self.is_read,
            has_attachments: self.has_attachments,
            flag_status: self.flag_status.clone(),
            inference_classification: self.inference_classification.clone(),
            is_draft: self.is_draft,
        }
    }
}

#[derive(Debug, PartialEq, Eq)]
pub struct Message {
    pub summary: MessageSummary,
    /// Stored for forward compatibility; unused until threading.
    pub conversation_id: Option<String>,
    /// Always sanitized before storage: raw message HTML never lands here.
    pub body_html: Option<String>,
    /// "html" or "text"; `None` until the body has been fetched.
    pub body_content_type: Option<String>,
    /// RFC 5322 Message-ID: the dedupe key against server search hits.
    pub internet_message_id: Option<String>,
    /// Assigned categories (Graph `categories`).
    pub categories: Vec<String>,
}

impl Clone for Message {
    fn clone(&self) -> (r: Self)
        ensures
            r@ == self@,
    {
        let cats = strings_clone(&self.categories);
        assert(cats@ =~= self.categories@);
        Message {
            summary: self.summary.clone(),
            conversation_id: clone_opt_string(&self.conversation_id),
            body_html: clone_opt_string(&self.body_html),
            body_content_type: clone_opt_string(&self.body_content_type),
            internet_message_id: clone_opt_string(&self.internet_message_id),
            categories: cats,
        }
    }
}

/// Message-list filter chips; also usable without a query (filtered browse).
#[derive(Debug, Default)]
pub struct SearchFilters {
    pub folder_id: Option<String>,
    pub unread_only: bool,
    pub has_attachments: bool,
    pub from: Option<String>,
    pub date_from: Option<i64>,
    pub date_to: Option<i64>,
    pub flagged_only: bool,
}

impl Clone for SearchFilters {
    fn clone(&self) -> (r: Self)
        ensures
            r == *self,
    {
        SearchFilters {
            folder_id: clone_opt_string(&self.folder_id),
            unread_only: self.unread_only,
            has_attachments: self.has_attachments,
            from: clone_opt_string(&self.from),
            date_from: self.date_from,
            date_to: self.date_to,
            flagged_only: self.flagged_only,
        }
    }
}

/// No filter chip is set.
pub open spec fn no_filters(f: SearchFilters) -> bool {
    &&& f.folder_id is None
    &&& !f.unread_only
    &&& !f.has_attachments
    &&& !f.flagged_only
    &&& f.from is None
    &&& f.date_from is None
    &&& f.date_to is None
}

impl SearchFilters {
    pub fn is_empty(&self) -> (r: bool)
        ensures
            r == no_filters(*self),
    {
        self.folder_id.is_none() && !self.unread_only && !self.has_attachments && !self.flagged_only
            && self.from.is_none() && self.date_from.is_none() && self.date_to.is_none()
    }
}

/// One search result. `title` and `snippet` carry match highlighting
/// delimited by the private-use markers below.
#[derive(Debug)]
pub struct SearchHit {
    pub entity_type: String,
    pub entity_id: String,
    pub title: String,
    pub snippet: String,
    pub ts: i64,
    /// Populated for mail hits; `None` for other entity types.
    pub summary: Option<MessageSummary>,
}

pub const HIGHLIGHT_START: char = '\u{E000}';

pub const HIGHLIGHT_END: char = '\u{E001}';

#[derive(Debug)]
pub struct SavedSearch {
    pub id: i64,
    pub name: String,
    pub query: String,
    /// JSON-serialized `SearchFilters`.
    pub filters: String,
}

impl Clone for SavedSearch {
    fn clone(&self) -> (r: Self)
        ensures
            r == *self,
    {
        SavedSearch {
            id: self.id,
            name: self.name.clone(),
            query: self.query.clone(),
            filters: self.filters.clone(),
        }
    }
}

#[derive(Debug, PartialEq, Eq)]
pub struct SyncState {
    pub folder_id: String,
    /// Graph delta cursor.
    pub delta_link: Option<String>,
    pub last_synced_at: Option<i64>,
}

impl Clone for SyncState {
    fn clone(&self) -> (r: Self)
        ensures
            r == *self,
    {
        SyncState {
            folder_id: self.folder_id.clone(),
            delta_link: clone_opt_string(&self.delta_link),
            last_synced_at: self.last_synced_at,
        }
    }
}


pub open spec fn opt_view(o: Option<String>) -> Option<Seq<char>> {
    match o {
        Some(s) => Some(s@),
        None => None,
    }
}

/// A folder as plain values.
pub struct FolderView {
    pub id: Seq<char>,
    pub display_name: Seq<char>,
    pub well_known_name: Option<Seq<char>>,
    pub parent_id: Option<Seq<char>>,
}

impl View for Folder {
    type V = FolderView;

    open spec fn view(&self) -> FolderView {
        FolderView {
            id: self.id@,
            display_name: self.display_name@,
            well_known_name: opt_view(self.well_known_name),
            parent_id: opt_view(self.parent_id),
        }
    }
}

/// A message summary as plain values.
pub struct SummaryView {
    pub id: Seq<char>,
    pub folder_id: Seq<char>,
    pub subject: Seq<char>,
    pub from_name: Seq<char>,
    pub from_address: Seq<char>,
    pub received_at: i64,
    pub preview: Seq<char>,
    pub is_read: bool,
    pub has_attachments: bool,
    pub flag_status: Seq<char>,
    pub inference_classification: Seq<char>,
    pub is_draft: bool,
}

impl View for MessageSummary {
    type V = SummaryView;

    open spec fn view(&self) -> SummaryView {
        SummaryView {
            id: self.id@,
            folder_id: self.folder_id@,
            subject: self.subject@,
            from_name: self.from_name@,
            from_address: self.from_address@,
            received_at: self.received_at,
            preview: self.preview@,
            is_read: self.is_read,
            has_attachments: self.has_attachments,
            flag_status: self.flag_status@,
            inference_classification: self.inference_classification@,
            is_draft: self.is_draft,
        }
    }
}

/// A stored message as plain values.
pub struct MessageView {
    pub summary: SummaryView,
    pub conversation_id: Option<Seq<char>>,
    pub body_html: Option<Seq<char>>,
    pub body_content_type: Option<Seq<char>>,
    pub internet_message_id: Option<Seq<char>>,
    pub categories: Seq<Seq<char>>,
}

pub open spec fn string_views(v: Seq<String>) -> Seq<Seq<char>> {
    v.map_values(|s: String| s@)
}

impl View for Message {
    type V = MessageView;

    open spec fn view(&self) -> MessageView {
        MessageView {
            summary: self.summary@,
            conversation_id: opt_view(self.conversation_id),
            body_html: opt_view(self.body_html),
            body_content_type: opt_view(self.body_content_type),
            internet_message_id: opt_view(self.internet_message_id),
            categories: string_views(self.categories@),
        }
    }
}

/// A sync cursor as plain values.
pub struct SyncStateView {
    pub folder_id: Seq<char>,
    pub delta_link: Option<Seq<char>>,
    pub last_synced_at: Option<i64>,
}

impl View for SyncState {
    type V = SyncStateView;

    open spec fn view(&self) -> SyncStateView {
        SyncStateView {
            folder_id: self.folder_id@,
            delta_link: opt_view(self.delta_link),
            last_synced_at: self.last_synced_at,
        }
    }
}

/// A saved search as plain values.
pub struct SavedSearchView {
    pub id: i64,
    pub name: Seq<char>,
    pub query: Seq<char>,
    pub filters: Seq<char>,
}

impl View for SavedSearch {
    type V = SavedSearchView;

    open spec fn view(&self) -> SavedSearchView {
        SavedSearchView { id: self.id, name: self.name@, query: self.query@, filters: self.filters@ }
    }
}

// ---------------------------------------------------------------------------
// Query builders
// ---------------------------------------------------------------------------

/// A token as an FTS5 string: double-quoted, inner quotes doubled.
pub open spec fn fts_quoted(t: Seq<char>) -> Seq<char> {
    seq!['"'] + doubled_quotes(t) + seq!['"']
}

pub open spec fn doubled_quotes(t: Seq<char>) -> Seq<char>
    decreases t.len(),
{
    if t.len() == 0 {
        Seq::empty()
    } else {
        doubled_quotes(t.drop_last()) + if t.last() == '"' {
            seq!['"', '"']
        } else {
            seq![t.last()]
        }
    }
}

/// The quoted tokens, the last one also matching as a prefix.
pub open spec fn fts_terms(ts: Seq<Seq<char>>) -> Seq<Seq<char>> {
    Seq::new(
        ts.len(),
        |i: int|
            if i == ts.len() - 1 {
                fts_quoted(ts[i]) + seq!['*']
            } else {
                fts_quoted(ts[i])
            },
    )
}

/// The FTS5 MATCH expression for user input, `None` when it holds no token.
pub open spec fn fts_expression(input: Seq<char>) -> Option<Seq<char>> {
    let ts = words(input);
    if ts.len() == 0 {
        None
    } else {
        Some(join(fts_terms(ts), seq![' ']))
    }
}

fn fts_quote(t: &[char], last: bool) -> (r: Vec<char>)
    ensures
        r@ == if last {
            fts_quoted(t@) + seq!['*']
        } else {
            fts_quoted(t@)
        },
{
    let mut r: Vec<char> = Vec::new();
    r.push('"');
    let mut i: usize = 0;
    while i < t.len()
        invariant
            i <= t@.len(),
            r@ == seq!['"'] + doubled_quotes(t@.take(i as int)),
        decreases t@.len() - i,
    {
        let c = t[i];
        r.push(c);
        if c == '"' {
            r.push('"');
        }
        i = i + 1;
        proof {
            assert(t@.take(i as int).drop_last() =~= t@.take(i - 1));
            assert(r@ =~= seq!['"'] + doubled_quotes(t@.take(i as int)));
        }
    }
    assert(t@.take(t@.len() as int) =~= t@);
    r.push('"');
    if last {
        r.push('*');
    }
    assert(r@ =~= (if last {
        fts_quoted(t@) + seq!['*']
    } else {
        fts_quoted(t@)
    }));
    r
}

/// Turn raw user input into a safe FTS5 MATCH expression: every token is
/// double-quoted (colons, NEAR, AND/OR/NOT and stray quotes become inert)
/// and the final token matches as a prefix for search-as-you-type.
pub fn fts_query(input: &str) -> (r: Option<String>)
    ensures
        match r {
            Some(s) => fts_expression(input@) == Some(s@),
            None => fts_expression(input@) is None,
        },
{
    let cs = chars_of(input);
    let ts = split_whitespace(cs.as_slice());
    if ts.len() == 0 {
        return None;
    }
    let n = ts.len();
    let mut terms: Vec<Vec<char>> = Vec::new();
    let mut i: usize = 0;
    while i < n
        invariant
            n == ts@.len(),
            i <= n,
            views(terms@) =~= fts_terms(views(ts@)).take(i as int),
        decreases n - i,
    {
        let q = fts_quote(ts[i].as_slice(), i == n - 1);
        let ghost before = views(terms@);
        terms.push(q);
        assert(views(terms@) =~= before.push(q@));
        i = i + 1;
    }
    assert(fts_terms(views(ts@)).take(n as int) =~= fts_terms(views(ts@)));
    let sp: [char; 1] = [' '];
    assert(sp@ =~= seq![' ']);
    let j = join_chars(&terms, sp.as_slice());
    Some(string_of(j.as_slice()))
}

/// A KQL date clause value for an epoch: its UTC day, or empty text where
/// `chrono` has no such instant.
pub open spec fn kql_day(epoch: int) -> Seq<char> {
    match crate::dates::formatted_utc(epoch, crate::dates::DAY_FORMAT@) {
        Some(d) => d,
        None => Seq::empty(),
    }
}

/// Text with every `"` removed.
pub open spec fn without_quotes(s: Seq<char>) -> Seq<char>
    decreases s.len(),
{
    if s.len() == 0 {
        Seq::empty()
    } else if s.last() == '"' {
        without_quotes(s.drop_last())
    } else {
        without_quotes(s.drop_last()).push(s.last())
    }
}

/// The KQL clauses for Graph `$search`, in order: the trimmed query with
/// quotes removed, `from:`, `hasAttachment:true`, `received>=`, `received<=`.
pub open spec fn kql_parts(query: Seq<char>, f: SearchFilters) -> Seq<Seq<char>> {
    let q = trim(query);
    let p1: Seq<Seq<char>> = if q.len() > 0 {
        seq![without_quotes(q)]
    } else {
        Seq::empty()
    };
    let p2 = match f.from {
        Some(from) => if trim(from@).len() > 0 {
            p1.push("from:"@ + trim(from@))
        } else {
            p1
        },
        None => p1,
    };
    let p3 = if f.has_attachments {
        p2.push("hasAttachment:true"@)
    } else {
        p2
    };
    let p4 = match f.date_from {
        Some(d) => p3.push("received>="@ + kql_day(d as int)),
        None => p3,
    };
    match f.date_to {
        Some(d) => p4.push("received<="@ + kql_day(d as int)),
        None => p4,
    }
}

pub open spec fn kql(query: Seq<char>, f: SearchFilters) -> Seq<char> {
    join(kql_parts(query, f), seq![' '])
}

fn day_text(epoch: i64) -> (r: Vec<char>)
    ensures
        r@ == kql_day(epoch as int),
{
    match crate::dates::format_utc(epoch, crate::dates::DAY_FORMAT) {
        Some(d) => chars_of(d.as_str()),
        None => Vec::new(),
    }
}

fn push_part(parts: &mut Vec<Vec<char>>, prefix: &str, rest: &[char])
    ensures
        views(final(parts)@) == views(old(parts)@).push(prefix@ + rest@),
{
    let mut p = chars_of(prefix);
    append_chars(&mut p, rest);
    let ghost before = views(parts@);
    parts.push(p);
    assert(views(parts@) =~= before.push(prefix@ + rest@));
}

/// KQL for Graph `$search` from the same query and filters as local search
/// (the server fallback).
pub fn build_kql(query: &str, filters: &SearchFilters) -> (r: String)
    ensures
        r@ == kql(query@, *filters),
{
    let mut parts: Vec<Vec<char>> = Vec::new();
    let qc = chars_of(query);
    let q = trim_chars(qc.as_slice());
    if q.len() > 0 {
        let mut nq: Vec<char> = Vec::new();
        let mut i: usize = 0;
        while i < q.len()
            invariant
                i <= q@.len(),
                nq@ == without_quotes(q@.take(i as int)),
            decreases q@.len() - i,
        {
            if q[i] != '"' {
                nq.push(q[i]);
            }
            i = i + 1;
            assert(q@.take(i as int).drop_last() =~= q@.take(i - 1));
        }
        assert(q@.take(q@.len() as int) =~= q@);
        parts.push(nq);
        assert(views(parts@) =~= seq![without_quotes(q@)]);
    } else {
        assert(views(parts@) =~= Seq::<Seq<char>>::empty());
    }
    match &filters.from {
        Some(from) => {
            let fc = chars_of(from.as_str());
            let ft = trim_chars(fc.as_slice());
            if ft.len() > 0 {
                push_part(&mut parts, "from:", ft.as_slice());
            }
        },
        None => {},
    }
    if filters.has_attachments {
        push_part(&mut parts, "hasAttachment:true", Vec::<char>::new().as_slice());
        assert("hasAttachment:true"@ + Seq::<char>::empty() =~= "hasAttachment:true"@);
    }
    match filters.date_from {
        Some(d) => push_part(&mut parts, "received>=", day_text(d).as_slice()),
        None => {},
    }
    match filters.date_to {
        Some(d) => push_part(&mut parts, "received<=", day_text(d).as_slice()),
        None => {},
    }
    let sp: [char; 1] = [' '];
    assert(sp@ =~= seq![' ']);
    let j = join_chars(&parts, sp.as_slice());
    string_of(j.as_slice())
}

/// A plausible SMTP address: not an Exchange legacy X.500 DN (leading
/// `/`), with an `@` whose local part is non-empty and whose domain holds no
/// further `@`, contains a `.` and neither starts nor ends with one.
pub open spec fn smtp_shaped(a: Seq<char>) -> bool {
    &&& !(a.len() > 0 && a[0] == '/')
    &&& exists|k: int| #![trigger a[k]] 0 <= k < a.len() && a[k] == '@' && first_at(a, k) && smtp_split_ok(a, k)
}

/// `k` is the position of the first `@`.
pub open spec fn first_at(a: Seq<char>, k: int) -> bool {
    forall|j: int| 0 <= j < k ==> a[j] != '@'
}

pub open spec fn smtp_split_ok(a: Seq<char>, k: int) -> bool {
    let local = a.take(k);
    let domain = a.skip(k + 1);
    &&& local.len() > 0
    &&& !domain.contains('@')
    &&& domain.contains('.')
    &&& domain[0] != '.'
    &&& domain.last() != '.'
}

/// True only for plausible SMTP addresses: one `@` with a non-empty local
/// part and a dotted domain. Rejects Exchange legacy X.500 DNs
/// (`/o=.../cn=...`), which Graph sometimes returns as addresses.
pub fn is_smtp_address(addr: &str) -> (r: bool)
    ensures
        r == smtp_shaped(addr@),
{
    let a = chars_of(addr);
    let n = a.len();
    if n > 0 && a[0] == '/' {
        return false;
    }
    let mut k: usize = 0;
    while k < n && a[k] != '@'
        invariant
            k <= n == a@.len(),
            forall|j: int| 0 <= j < k ==> a@[j] != '@',
        decreases n - k,
    {
        k = k + 1;
    }
    if k == n {
        assert forall|m: int| 0 <= m < a@.len() && a@[m] == '@' implies !first_at(a@, m) by {}
        return false;
    }
    let ghost dom = a@.skip(k + 1);
    if k == 0 {
        assert(forall|m: int| #![trigger a@[m]] 0 <= m < a@.len() && a@[m] == '@' && first_at(a@, m) ==> m == k);
        return false;
    }
    let mut has_dot = false;
    let mut j: usize = k + 1;
    while j < n
        invariant
            k < j <= n == a@.len(),
            a@ == addr@,
            a@[k as int] == '@',
            forall|m: int| 0 <= m < k ==> a@[m] != '@',
            dom =~= a@.skip(k + 1),
            forall|m: int| k + 1 <= m < j ==> a@[m] != '@',
            has_dot == exists|m: int| k + 1 <= m < j && a@[m] == '.',
        decreases n - j,
    {
        if a[j] == '@' {
            proof {
                assert(dom[j - k - 1] == '@');
                assert(dom.contains('@'));
                assert(!smtp_split_ok(a@, k as int));
                assert(forall|m: int| #![trigger a@[m]] 0 <= m < a@.len() && a@[m] == '@' && first_at(a@, m) ==> m == k);
            }
            return false;
        }
        if a[j] == '.' {
            has_dot = true;
        }
        j = j + 1;
    }
    proof {
        assert(forall|m: int| #![trigger a@[m]] 0 <= m < a@.len() && a@[m] == '@' && first_at(a@, m) ==> m == k);
        assert(!dom.contains('@'));
        if has_dot {
            let m = choose|m: int| k + 1 <= m < n && a@[m] == '.';
            assert(dom[m - k - 1] == '.');
        }
        if dom.contains('.') {
            let m = choose|m: int| 0 <= m < dom.len() && dom[m] == '.';
            assert(a@[m + k + 1] == '.');
        }
    }
    if !has_dot {
        return false;
    }
    let ok = a[k + 1] != '.' && a[n - 1] != '.';
    proof {
        assert(dom[0] == a@[k + 1]);
        assert(dom.last() == a@[n - 1]);
        if ok {
            assert(a@[k as int] == '@' && first_at(a@, k as int) && smtp_split_ok(a@, k as int));
        }
    }
    ok
}

} // verus!
verus! {

// ---------------------------------------------------------------------------
// The store model
// ---------------------------------------------------------------------------

/// A delta change-event that carries only state (empty sender, no received
/// date), as Graph sends for a bare read/flag flip.
pub open spec fn partial_event(s: SummaryView) -> bool {
    s.from_address.len() == 0 && s.received_at == 0
}

pub open spec fn keep_some(new: Option<Seq<char>>, old: Option<Seq<char>>) -> Option<Seq<char>> {
    if new is Some {
        new
    } else {
        old
    }
}

/// What an upsert of `m` leaves when `e` is already stored under its id: a
/// missing body, content type, Message-ID or conversation id never clears the
/// stored one; a partial event keeps the stored subject, sender, preview,
/// attachment flag and categories; a zero received date keeps the stored
/// date. State flags (read, flag, inference, draft) and the folder always
/// come from `m`.
pub open spec fn merged(e: MessageView, m: MessageView) -> MessageView {
    let p = partial_event(m.summary);
    MessageView {
        summary: SummaryView {
            subject: if p {
                e.summary.subject
            } else {
                m.summary.subject
            },
            from_name: if p {
                e.summary.from_name
            } else {
                m.summary.from_name
            },
            from_address: if p {
                e.summary.from_address
            } else {
                m.summary.from_address
            },
            preview: if p {
                e.summary.preview
            } else {
                m.summary.preview
            },
            has_attachments: if p {
                e.summary.has_attachments
            } else {
                m.summary.has_attachments
            },
            received_at: if m.summary.received_at == 0 {
                e.summary.received_at
            } else {
                m.summary.received_at
            },
            ..m.summary
        },
        conversation_id: keep_some(m.conversation_id, e.conversation_id),
        body_html: keep_some(m.body_html, e.body_html),
        body_content_type: keep_some(m.body_content_type, e.body_content_type),
        internet_message_id: keep_some(m.internet_message_id, e.internet_message_id),
        categories: if p {
            e.categories
        } else {
            m.categories
        },
    }
}

/// One message upserted, keyed by its id.
pub open spec fn upsert_one(map: Map<Seq<char>, MessageView>, m: MessageView) -> Map<Seq<char>, MessageView> {
    let k = m.summary.id;
    if map.contains_key(k) {
        map.insert(k, merged(map[k], m))
    } else {
        map.insert(k, m)
    }
}

/// Messages upserted in order (idempotent by id).
pub open spec fn upserted(map: Map<Seq<char>, MessageView>, ms: Seq<MessageView>) -> Map<
    Seq<char>,
    MessageView,
>
    decreases ms.len(),
{
    if ms.len() == 0 {
        map
    } else {
        upsert_one(upserted(map, ms.drop_last()), ms.last())
    }
}

/// Folders upserted in order (a re-upsert replaces, never duplicates).
pub open spec fn folders_upserted(map: Map<Seq<char>, FolderView>, fs: Seq<FolderView>) -> Map<
    Seq<char>,
    FolderView,
>
    decreases fs.len(),
{
    if fs.len() == 0 {
        map
    } else {
        folders_upserted(map, fs.drop_last()).insert(fs.last().id, fs.last())
    }
}

/// The stored message `id` with a new summary, if it exists.
pub open spec fn with_summary(map: Map<Seq<char>, MessageView>, id: Seq<char>, s: SummaryView) -> Map<
    Seq<char>,
    MessageView,
> {
    if map.contains_key(id) {
        map.insert(id, MessageView { summary: s, ..map[id] })
    } else {
        map
    }
}

pub open spec fn read_set(map: Map<Seq<char>, MessageView>, id: Seq<char>, b: bool) -> Map<Seq<char>, MessageView> {
    with_summary(map, id, SummaryView { is_read: b, ..map[id].summary })
}

pub open spec fn flag_set(map: Map<Seq<char>, MessageView>, id: Seq<char>, f: Seq<char>) -> Map<
    Seq<char>,
    MessageView,
> {
    with_summary(map, id, SummaryView { flag_status: f, ..map[id].summary })
}

pub open spec fn inference_set(map: Map<Seq<char>, MessageView>, id: Seq<char>, c: Seq<char>) -> Map<
    Seq<char>,
    MessageView,
> {
    with_summary(map, id, SummaryView { inference_classification: c, ..map[id].summary })
}

pub open spec fn categories_set(map: Map<Seq<char>, MessageView>, id: Seq<char>, c: Seq<Seq<char>>) -> Map<
    Seq<char>,
    MessageView,
> {
    if map.contains_key(id) {
        map.insert(id, MessageView { categories: c, ..map[id] })
    } else {
        map
    }
}

pub open spec fn body_set(
    map: Map<Seq<char>, MessageView>,
    id: Seq<char>,
    body: Seq<char>,
    content_type: Seq<char>,
) -> Map<Seq<char>, MessageView> {
    if map.contains_key(id) {
        map.insert(
            id,
            MessageView { body_html: Some(body), body_content_type: Some(content_type), ..map[id] },
        )
    } else {
        map
    }
}

/// The message `id` repointed at `folder`, re-keyed to `new_id` when given
/// (a confirmed Graph move mints the destination copy's id).
pub open spec fn moved(
    map: Map<Seq<char>, MessageView>,
    id: Seq<char>,
    folder: Seq<char>,
    new_id: Option<Seq<char>>,
) -> Map<Seq<char>, MessageView> {
    if map.contains_key(id) {
        let key = match new_id {
            Some(d) => d,
            None => id,
        };
        let m = map[id];
        map.remove(id).insert(
            key,
            MessageView { summary: SummaryView { id: key, folder_id: folder, ..m.summary }, ..m },
        )
    } else {
        map
    }
}

/// Some stored message has this RFC 5322 Message-ID.
pub open spec fn has_message_id(map: Map<Seq<char>, MessageView>, imid: Seq<char>) -> bool {
    exists|k: Seq<char>| map.contains_key(k) && (#[trigger] map[k]).internet_message_id == Some(imid)
}

pub open spec fn str_opt_view(o: Option<&str>) -> Option<Seq<char>> {
    match o {
        Some(s) => Some(s@),
        None => None,
    }
}

pub open spec fn folder_views(v: Seq<Folder>) -> Seq<FolderView> {
    v.map_values(|f: Folder| f@)
}

pub open spec fn message_views(v: Seq<Message>) -> Seq<MessageView> {
    v.map_values(|m: Message| m@)
}

pub open spec fn summary_views(v: Seq<MessageSummary>) -> Seq<SummaryView> {
    v.map_values(|m: MessageSummary| m@)
}

/// `v` lists exactly the values of `map`, ordered by strictly increasing key.
pub open spec fn folders_listed(map: Map<Seq<char>, FolderView>, v: Seq<FolderView>) -> bool {
    &&& forall|i: int| 0 <= i < v.len() ==> map.contains_key((#[trigger] v[i]).id) && map[v[i].id] == v[i]
    &&& forall|k: Seq<char>| #[trigger] map.contains_key(k) ==> exists|i: int| 0 <= i < v.len() && v[i].id == k
    &&& forall|i: int, j: int|
        0 <= i < j < v.len() ==> crate::text::seq_lt(#[trigger] v[i].id, #[trigger] v[j].id)
}

/// `full` lists the summaries of exactly the messages in `folder`, each once,
/// newest first.
pub open spec fn folder_listing(map: Map<Seq<char>, MessageView>, folder: Seq<char>, full: Seq<SummaryView>) -> bool {
    &&& forall|i: int|
        0 <= i < full.len() ==> map.contains_key((#[trigger] full[i]).id) && map[full[i].id].summary
            == full[i] && full[i].folder_id == folder
    &&& forall|k: Seq<char>|
        #[trigger] map.contains_key(k) && map[k].summary.folder_id == folder ==> exists|i: int|
            0 <= i < full.len() && full[i].id == k
    &&& forall|i: int, j: int| 0 <= i < j < full.len() ==> (#[trigger] full[i]).id != (#[trigger] full[j]).id
    &&& forall|i: int, j: int|
        0 <= i < j < full.len() ==> (#[trigger] full[i]).received_at >= (#[trigger] full[j]).received_at
}

/// A page of a folder listing: `limit` summaries after the first `offset`.
pub open spec fn page_of(full: Seq<SummaryView>, limit: int, offset: int) -> Seq<SummaryView> {
    if offset >= full.len() {
        Seq::empty()
    } else if offset + limit >= full.len() {
        full.skip(offset)
    } else {
        full.subrange(offset, offset + limit)
    }
}

/// Local mail storage. Blocking by design (call it off the async runtime).
/// `messages.folder_id` references `folders` in the SQL backend, so callers
/// upsert folders before their messages.
pub trait MailStore {
    // The model below is what the contracts speak of. A backend that does
    // not model its contents (one outside the verified code) leaves each
    // part unspecified.

    /// The store's internal consistency.
    closed spec fn wf(&self) -> bool {
        vstd::pervasive::arbitrary()
    }

    /// Stored messages by id.
    closed spec fn messages(&self) -> Map<Seq<char>, MessageView> {
        vstd::pervasive::arbitrary()
    }

    /// Folders by id.
    closed spec fn folders(&self) -> Map<Seq<char>, FolderView> {
        vstd::pervasive::arbitrary()
    }

    /// Sync cursors by folder id.
    closed spec fn sync_states(&self) -> Map<Seq<char>, SyncStateView> {
        vstd::pervasive::arbitrary()
    }

    /// Per-sender remote-image preference by address.
    closed spec fn sender_prefs(&self) -> Map<Seq<char>, bool> {
        vstd::pervasive::arbitrary()
    }

    /// Signatures by (account, kind).
    closed spec fn signatures(&self) -> Map<(Seq<char>, Seq<char>), Seq<char>> {
        vstd::pervasive::arbitrary()
    }

    /// The store's calls never fail. A backend that does not prove so (one
    /// outside the verified code, such as a database on disk) is not
    /// reliable, and nothing is promised of its failures.
    closed spec fn reliable(&self) -> bool {
        false
    }

    fn upsert_folders(&mut self, folders: &[Folder]) -> (r: Result<(), MailStoreError>)
        requires
            old(self).wf(),
        ensures
            final(self).wf(),
            r is Ok ==> final(self).folders() == folders_upserted(old(self).folders(), folder_views(folders@)),
            r is Ok ==> final(self).messages() == old(self).messages(),
            r is Ok ==> final(self).sync_states() == old(self).sync_states(),
            old(self).reliable() ==> r is Ok,
            final(self).reliable() == old(self).reliable(),
    ;

    /// Every folder, ordered by id.
    fn list_folders(&self) -> (r: Result<Vec<Folder>, MailStoreError>)
        requires
            self.wf(),
        ensures
            r matches Ok(v) ==> folders_listed(self.folders(), folder_views(v@)),
            self.reliable() ==> r is Ok,
    ;

    /// Idempotent by message id. A message whose body is `None` never clears
    /// an already-stored body (delta re-upserts carry no body).
    fn upsert_messages(&mut self, messages: &[Message]) -> (r: Result<(), MailStoreError>)
        requires
            old(self).wf(),
        ensures
            final(self).wf(),
            r is Ok ==> final(self).messages() == upserted(old(self).messages(), message_views(messages@)),
            r is Ok ==> final(self).folders() == old(self).folders(),
            r is Ok ==> final(self).sync_states() == old(self).sync_states(),
            old(self).reliable() ==> r is Ok,
            final(self).reliable() == old(self).reliable(),
    ;

    /// Newest-first within a folder, `limit` after the first `offset`.
    fn list_messages(&self, folder_id: &str, limit: u32, offset: u32) -> (r: Result<
        Vec<MessageSummary>,
        MailStoreError,
    >)
        requires
            self.wf(),
        ensures
            r matches Ok(v) ==> exists|full: Seq<SummaryView>|
                folder_listing(self.messages(), folder_id@, full) && summary_views(v@) == page_of(
                    full,
                    limit as int,
                    offset as int,
                ),
            self.reliable() ==> r is Ok,
    ;

    fn get_message(&self, id: &str) -> (r: Result<Option<Message>, MailStoreError>)
        requires
            self.wf(),
        ensures
            r matches Ok(o) ==> match o {
                Some(m) => self.messages().contains_key(id@) && m@ == self.messages()[id@],
                None => !self.messages().contains_key(id@),
            },
            self.reliable() ==> r is Ok,
    ;

    /// Deleting a nonexistent id is a no-op (delta rounds may replay).
    fn delete_message(&mut self, id: &str) -> (r: Result<(), MailStoreError>)
        requires
            old(self).wf(),
        ensures
            final(self).wf(),
            r is Ok ==> final(self).messages() == old(self).messages().remove(id@),
            r is Ok ==> final(self).folders() == old(self).folders(),
            r is Ok ==> final(self).sync_states() == old(self).sync_states(),
            old(self).reliable() ==> r is Ok,
            final(self).reliable() == old(self).reliable(),
    ;

    /// Cache a lazily-fetched (already sanitized) body.
    fn set_message_body(&mut self, id: &str, body: &str, content_type: &str) -> (r: Result<(), MailStoreError>)
        requires
            old(self).wf(),
        ensures
            final(self).wf(),
            r is Ok ==> final(self).messages() == body_set(old(self).messages(), id@, body@, content_type@),
            old(self).reliable() ==> r is Ok,
            final(self).reliable() == old(self).reliable(),
    ;

    /// Unread message count per folder id, ordered by folder id.
    fn unread_counts(&self) -> (r: Result<Vec<(String, u32)>, MailStoreError>)
        requires
            self.wf(),
        ensures
            self.reliable() ==> r is Ok,
    ;

    /// Whether remote images are allowed for this sender (default false).
    fn get_sender_pref(&self, address: &str) -> (r: Result<bool, MailStoreError>)
        requires
            self.wf(),
        ensures
            r matches Ok(b) ==> b == (self.sender_prefs().contains_key(address@)
                && self.sender_prefs()[address@]),
            self.reliable() ==> r is Ok,
    ;

    fn set_sender_pref(&mut self, address: &str, allow_remote_images: bool) -> (r: Result<(), MailStoreError>)
        requires
            old(self).wf(),
        ensures
            final(self).wf(),
            r is Ok ==> final(self).sender_prefs() == old(self).sender_prefs().insert(
                address@,
                allow_remote_images,
            ),
            r is Ok ==> final(self).messages() == old(self).messages(),
            old(self).reliable() ==> r is Ok,
            final(self).reliable() == old(self).reliable(),
    ;

    fn get_sync_state(&self, folder_id: &str) -> (r: Result<Option<SyncState>, MailStoreError>)
        requires
            self.wf(),
        ensures
            r matches Ok(o) ==> match o {
                Some(s) => self.sync_states().contains_key(folder_id@) && s@ == self.sync_states()[folder_id@],
                None => !self.sync_states().contains_key(folder_id@),
            },
            self.reliable() ==> r is Ok,
    ;

    fn set_sync_state(&mut self, state: &SyncState) -> (r: Result<(), MailStoreError>)
        requires
            old(self).wf(),
        ensures
            final(self).wf(),
            r is Ok ==> final(self).sync_states() == old(self).sync_states().insert(
                state.folder_id@,
                state@,
            ),
            r is Ok ==> final(self).messages() == old(self).messages(),
            r is Ok ==> final(self).folders() == old(self).folders(),
            old(self).reliable() ==> r is Ok,
            final(self).reliable() == old(self).reliable(),
    ;

    /// Bump autocomplete history for successfully-sent recipients.
    fn record_recipients(&mut self, recipients: &[(String, String)], now: i64) -> (r: Result<
        (),
        MailStoreError,
    >)
        requires
            old(self).wf(),
        ensures
            final(self).wf(),
            r is Ok ==> final(self).messages() == old(self).messages(),
            old(self).reliable() ==> r is Ok,
            final(self).reliable() == old(self).reliable(),
    ;

    /// Ranked (address, name) suggestions from send history and
    /// received-from frequency. Purely local.
    fn search_recipients(&self, query: &str, limit: u32) -> (r: Result<Vec<(String, String)>, MailStoreError>)
        requires
            self.wf(),
        ensures
            self.reliable() ==> r is Ok,
    ;

    fn get_signature(&self, account: &str, kind: &str) -> (r: Result<Option<String>, MailStoreError>)
        requires
            self.wf(),
        ensures
            r matches Ok(o) ==> match o {
                Some(s) => self.signatures().contains_key((account@, kind@)) && s@ == self.signatures()[(
                    account@,
                    kind@,
                )],
                None => !self.signatures().contains_key((account@, kind@)),
            },
            self.reliable() ==> r is Ok,
    ;

    fn set_signature(&mut self, account: &str, kind: &str, content: &str) -> (r: Result<(), MailStoreError>)
        requires
            old(self).wf(),
        ensures
            final(self).wf(),
            r is Ok ==> final(self).signatures() == old(self).signatures().insert(
                (account@, kind@),
                content@,
            ),
            r is Ok ==> final(self).messages() == old(self).messages(),
            old(self).reliable() ==> r is Ok,
            final(self).reliable() == old(self).reliable(),
    ;

    /// Ranked, highlighted full-text search. An empty query with filters set
    /// is a filtered browse (newest first).
    fn search(&self, query: &str, filters: &SearchFilters, limit: u32) -> (r: Result<
        Vec<SearchHit>,
        MailStoreError,
    >)
        requires
            self.wf(),
        ensures
            self.reliable() ==> r is Ok,
    ;

    /// Index a non-mail document (the seam other entity types plug into).
    fn index_document(
        &mut self,
        entity_type: &str,
        entity_id: &str,
        title: &str,
        subtitle: &str,
        body: &str,
        ts: i64,
    ) -> (r: Result<(), MailStoreError>)
        requires
            old(self).wf(),
        ensures
            final(self).wf(),
            r is Ok ==> final(self).messages() == old(self).messages(),
    ;

    fn list_saved_searches(&self) -> (r: Result<Vec<SavedSearch>, MailStoreError>)
        requires
            self.wf(),
        ensures
            self.reliable() ==> r is Ok,
    ;

    fn save_search(&mut self, name: &str, query: &str, filters_json: &str) -> (r: Result<i64, MailStoreError>)
        requires
            old(self).wf(),
        ensures
            final(self).wf(),
            r is Ok ==> final(self).messages() == old(self).messages(),
            old(self).reliable() ==> r is Ok,
            final(self).reliable() == old(self).reliable(),
    ;

    fn delete_saved_search(&mut self, id: i64) -> (r: Result<(), MailStoreError>)
        requires
            old(self).wf(),
        ensures
            final(self).wf(),
            r is Ok ==> final(self).messages() == old(self).messages(),
            old(self).reliable() ==> r is Ok,
            final(self).reliable() == old(self).reliable(),
    ;

    /// Dedupe helper for server hits: does this message already exist
    /// locally, by Graph id or by RFC 5322 Message-ID?
    fn message_exists(&self, id: &str, internet_message_id: Option<&str>) -> (r: Result<bool, MailStoreError>)
        requires
            self.wf(),
        ensures
            r matches Ok(b) ==> b == (self.messages().contains_key(id@) || match internet_message_id {
                Some(imid) => has_message_id(self.messages(), imid@),
                None => false,
            }),
            self.reliable() ==> r is Ok,
    ;

    /// Ids of rows whose summary a partial delta event blanked (empty sender
    /// and no received date): candidates for a re-fetch repair.
    fn broken_summary_ids(&self, limit: u32) -> (r: Result<Vec<String>, MailStoreError>)
        requires
            self.wf(),
        ensures
            r matches Ok(v) ==> v@.len() <= limit && forall|i: int|
                0 <= i < v@.len() ==> self.messages().contains_key((#[trigger] v@[i])@) && partial_event(
                    self.messages()[v@[i]@].summary,
                ),
            self.reliable() ==> r is Ok,
    ;

    fn set_read_state(&mut self, id: &str, is_read: bool) -> (r: Result<(), MailStoreError>)
        requires
            old(self).wf(),
        ensures
            final(self).wf(),
            r is Ok ==> final(self).messages() == read_set(old(self).messages(), id@, is_read),
            r is Ok ==> final(self).folders() == old(self).folders(),
            old(self).reliable() ==> r is Ok,
            final(self).reliable() == old(self).reliable(),
    ;

    fn set_flag_status(&mut self, id: &str, flag_status: &str) -> (r: Result<(), MailStoreError>)
        requires
            old(self).wf(),
        ensures
            final(self).wf(),
            r is Ok ==> final(self).messages() == flag_set(old(self).messages(), id@, flag_status@),
            r is Ok ==> final(self).folders() == old(self).folders(),
            old(self).reliable() ==> r is Ok,
            final(self).reliable() == old(self).reliable(),
    ;

    fn set_categories(&mut self, id: &str, categories: &[String]) -> (r: Result<(), MailStoreError>)
        requires
            old(self).wf(),
        ensures
            final(self).wf(),
            r is Ok ==> final(self).messages() == categories_set(
                old(self).messages(),
                id@,
                string_views(categories@),
            ),
            r is Ok ==> final(self).folders() == old(self).folders(),
            old(self).reliable() ==> r is Ok,
            final(self).reliable() == old(self).reliable(),
    ;

    fn set_inference(&mut self, id: &str, classification: &str) -> (r: Result<(), MailStoreError>)
        requires
            old(self).wf(),
        ensures
            final(self).wf(),
            r is Ok ==> final(self).messages() == inference_set(old(self).messages(), id@, classification@),
            r is Ok ==> final(self).folders() == old(self).folders(),
            old(self).reliable() ==> r is Ok,
            final(self).reliable() == old(self).reliable(),
    ;

    /// Repoint a message at a folder (optimistic move). `new_id` swaps in the
    /// destination copy's id after a confirmed Graph move.
    fn move_message(&mut self, id: &str, new_folder_id: &str, new_id: Option<&str>) -> (r: Result<
        (),
        MailStoreError,
    >)
        requires
            old(self).wf(),
        ensures
            final(self).wf(),
            r is Ok ==> final(self).messages() == moved(
                old(self).messages(),
                id@,
                new_folder_id@,
                str_opt_view(new_id),
            ),
            r is Ok ==> final(self).folders() == old(self).folders(),
            old(self).reliable() ==> r is Ok,
            final(self).reliable() == old(self).reliable(),
    ;
}

} // verus!
verus! {

/// Upserting the same message twice leaves what one upsert leaves
/// (upserts are idempotent by message id).
pub proof fn law_upsert_idempotent(map: Map<Seq<char>, MessageView>, m: MessageView)
    ensures
        upsert_one(upsert_one(map, m), m) == upsert_one(map, m),
{
    let k = m.summary.id;
    let once = upsert_one(map, m);
    if map.contains_key(k) {
        assert(merged(merged(map[k], m), m) =~= merged(map[k], m));
        assert(upsert_one(once, m) =~= once);
    } else {
        assert(merged(m, m).summary =~= m.summary);
        assert(merged(m, m) =~= m);
        assert(upsert_one(once, m) =~= once);
    }
}

/// An upsert without a body (or content type, Message-ID, conversation id)
/// keeps the stored one.
pub proof fn law_upsert_keeps_body(map: Map<Seq<char>, MessageView>, m: MessageView)
    requires
        map.contains_key(m.summary.id),
    ensures
        m.body_html is None ==> upsert_one(map, m)[m.summary.id].body_html == map[m.summary.id].body_html,
        m.body_content_type is None ==> upsert_one(map, m)[m.summary.id].body_content_type
            == map[m.summary.id].body_content_type,
        m.internet_message_id is None ==> upsert_one(map, m)[m.summary.id].internet_message_id
            == map[m.summary.id].internet_message_id,
        m.conversation_id is None ==> upsert_one(map, m)[m.summary.id].conversation_id
            == map[m.summary.id].conversation_id,
{
}

/// A partial change event (empty sender, no received date) changes the
/// state flags it carries but never blanks the stored subject, sender,
/// preview, attachment flag, categories or date.
pub proof fn law_partial_event_keeps_summary(map: Map<Seq<char>, MessageView>, m: MessageView)
    requires
        map.contains_key(m.summary.id),
        partial_event(m.summary),
    ensures
        ({
            let e = map[m.summary.id];
            let n = upsert_one(map, m)[m.summary.id];
            &&& n.summary.subject == e.summary.subject
            &&& n.summary.from_name == e.summary.from_name
            &&& n.summary.from_address == e.summary.from_address
            &&& n.summary.preview == e.summary.preview
            &&& n.summary.has_attachments == e.summary.has_attachments
            &&& n.summary.received_at == e.summary.received_at
            &&& n.categories == e.categories
            &&& n.summary.is_read == m.summary.is_read
            &&& n.summary.flag_status == m.summary.flag_status
            &&& n.summary.folder_id == m.summary.folder_id
        }),
{
}

/// After an upsert the message is stored under its id, and every other
/// stored message is untouched.
pub proof fn law_upsert_then_get(map: Map<Seq<char>, MessageView>, m: MessageView, other: Seq<char>)
    requires
        other != m.summary.id,
    ensures
        upsert_one(map, m).contains_key(m.summary.id),
        !map.contains_key(m.summary.id) ==> upsert_one(map, m)[m.summary.id] == m,
        upsert_one(map, m).contains_key(other) == map.contains_key(other),
        map.contains_key(other) ==> upsert_one(map, m)[other] == map[other],
{
}

/// A moved message is found under its new id in the new folder, and no
/// longer under the old id when it was re-keyed.
pub proof fn law_move_then_get(
    map: Map<Seq<char>, MessageView>,
    id: Seq<char>,
    folder: Seq<char>,
    new_id: Option<Seq<char>>,
)
    requires
        map.contains_key(id),
    ensures
        ({
            let key = match new_id {
                Some(d) => d,
                None => id,
            };
            let after = moved(map, id, folder, new_id);
            &&& after.contains_key(key)
            &&& after[key].summary.folder_id == folder
            &&& after[key].summary.id == key
            &&& after[key].body_html == map[id].body_html
            &&& (key != id ==> !after.contains_key(id))
        }),
{
}

/// Reading a flag back after setting it gives the value set.
pub proof fn law_set_read_then_get(map: Map<Seq<char>, MessageView>, id: Seq<char>, b: bool)
    requires
        map.contains_key(id),
    ensures
        read_set(map, id, b).contains_key(id),
        read_set(map, id, b)[id].summary.is_read == b,
        read_set(map, id, b)[id].body_html == map[id].body_html,
{
}

} // verus!
verus! {

pub open spec fn store_error_text(e: MailStoreError) -> Seq<char> {
    match e {
        MailStoreError::Db(m) => "database error: "@ + m@,
        MailStoreError::Migration(m) => "migration error: "@ + m@,
        MailStoreError::Io(m) => "io error: "@ + m@,
    }
}

impl MailStoreError {
    /// The error's text.
    pub fn message(&self) -> (r: String)
        ensures
            r@ == store_error_text(*self),
    {
        let (mut r, m) = match self {
            MailStoreError::Db(m) => (chars_of("database error: "), m),
            MailStoreError::Migration(m) => (chars_of("migration error: "), m),
            MailStoreError::Io(m) => (chars_of("io error: "), m),
        };
        append_chars(&mut r, chars_of(m.as_str()).as_slice());
        string_of(r.as_slice())
    }
}

/// Deleting a message that is not stored changes nothing, so a replayed
/// removal is harmless.
pub proof fn law_delete_missing_is_noop(map: Map<Seq<char>, MessageView>, id: Seq<char>)
    ensures
        !map.contains_key(id) ==> map.remove(id) == map,
        map.remove(id).remove(id) == map.remove(id),
{
    assert(map.remove(id).remove(id) =~= map.remove(id));
    if !map.contains_key(id) {
        assert(map.remove(id) =~= map);
    }
}

} // verus!
verus! {

/// A value bound into a store query.
#[derive(Debug, Clone, PartialEq, Eq)]
pub enum SqlParam {
    Text(String),
    Integer(i64),
}

/// What a bound value holds.
pub enum ParamView {
    Text(Seq<char>),
    Integer(i64),
}

pub open spec fn param_view(p: SqlParam) -> ParamView {
    match p {
        SqlParam::Text(s) => ParamView::Text(s@),
        SqlParam::Integer(n) => ParamView::Integer(n),
    }
}

pub open spec fn param_views(v: Seq<SqlParam>) -> Seq<ParamView> {
    v.map_values(|p: SqlParam| param_view(p))
}

/// A predicate with its parameters when `on`, nothing otherwise.
pub open spec fn clause_if(on: bool, sql: Seq<char>, params: Seq<ParamView>) -> (Seq<char>, Seq<ParamView>) {
    if on {
        (sql, params)
    } else {
        (Seq::empty(), Seq::empty())
    }
}

/// The sender filter, when one is given and not blank: a substring match on
/// address or name.
pub open spec fn from_clause(from: Option<String>) -> (Seq<char>, Seq<ParamView>) {
    match from {
        Some(x) => {
            let pat = "%"@ + trim(x@) + "%"@;
            clause_if(
                trim(x@).len() > 0,
                " AND (m.from_address LIKE ? OR m.from_name LIKE ?)"@,
                seq![ParamView::Text(pat), ParamView::Text(pat)],
            )
        },
        None => (Seq::empty(), Seq::empty()),
    }
}

/// The mail filters of a search as SQL predicates over the messages row `m`
/// (each starting with ` AND `), with the values they bind, in order:
/// folder, unread, attachments, flagged, sender, date range.
pub open spec fn filter_clause_of(f: SearchFilters) -> (Seq<char>, Seq<ParamView>) {
    let folder = match f.folder_id {
        Some(x) => (" AND m.folder_id = ?"@, seq![ParamView::Text(x@)]),
        None => (Seq::empty(), Seq::empty()),
    };
    let unread = clause_if(f.unread_only, " AND m.is_read = 0"@, Seq::empty());
    let att = clause_if(f.has_attachments, " AND m.has_attachments = 1"@, Seq::empty());
    let flag = clause_if(f.flagged_only, " AND m.flag_status = 'flagged'"@, Seq::empty());
    let from = from_clause(f.from);
    let after = match f.date_from {
        Some(d) => (" AND m.received_at >= ?"@, seq![ParamView::Integer(d)]),
        None => (Seq::empty(), Seq::empty()),
    };
    let before = match f.date_to {
        Some(d) => (" AND m.received_at <= ?"@, seq![ParamView::Integer(d)]),
        None => (Seq::empty(), Seq::empty()),
    };
    (
        folder.0 + unread.0 + att.0 + flag.0 + from.0 + after.0 + before.0,
        folder.1 + unread.1 + att.1 + flag.1 + from.1 + after.1 + before.1,
    )
}

fn push_clause(sql: &mut Vec<char>, params: &mut Vec<SqlParam>, piece: &str, added: Vec<SqlParam>)
    ensures
        final(sql)@ == old(sql)@ + piece@,
        param_views(final(params)@) == param_views(old(params)@) + param_views(added@),
{
    append_chars(sql, chars_of(piece).as_slice());
    let mut added = added;
    let ghost a = added@;
    params.append(&mut added);
    assert(param_views(params@) =~= param_views(old(params)@) + param_views(a));
}

/// Build the mail-filter predicates of a store query and their values.
pub fn filter_clause(filters: &SearchFilters) -> (r: (String, Vec<SqlParam>))
    ensures
        r.0@ == filter_clause_of(*filters).0,
        param_views(r.1@) == filter_clause_of(*filters).1,
{
    let mut sql: Vec<char> = Vec::new();
    let mut params: Vec<SqlParam> = Vec::new();
    let ghost f = *filters;
    let ghost folder = match f.folder_id {
        Some(x) => (" AND m.folder_id = ?"@, seq![ParamView::Text(x@)]),
        None => (Seq::empty(), Seq::empty()),
    };
    match &filters.folder_id {
        Some(x) => {
            let mut v: Vec<SqlParam> = Vec::new();
            v.push(SqlParam::Text(x.clone()));
            assert(param_views(v@) =~= seq![ParamView::Text(x@)]);
            push_clause(&mut sql, &mut params, " AND m.folder_id = ?", v);
        },
        None => {},
    }
    assert(sql@ =~= folder.0 && param_views(params@) =~= folder.1);
    let ghost s1 = sql@;
    let ghost p1 = param_views(params@);
    if filters.unread_only {
        push_clause(&mut sql, &mut params, " AND m.is_read = 0", Vec::new());
    }
    if filters.has_attachments {
        push_clause(&mut sql, &mut params, " AND m.has_attachments = 1", Vec::new());
    }
    if filters.flagged_only {
        push_clause(&mut sql, &mut params, " AND m.flag_status = 'flagged'", Vec::new());
    }
    assert(param_views(Seq::<SqlParam>::empty()) =~= Seq::<ParamView>::empty());
    let ghost unread = clause_if(f.unread_only, " AND m.is_read = 0"@, Seq::empty());
    let ghost att = clause_if(f.has_attachments, " AND m.has_attachments = 1"@, Seq::empty());
    let ghost flag = clause_if(f.flagged_only, " AND m.flag_status = 'flagged'"@, Seq::empty());
    assert(sql@ =~= s1 + unread.0 + att.0 + flag.0);
    assert(param_views(params@) =~= p1 + unread.1 + att.1 + flag.1);
    let ghost s2 = sql@;
    let ghost p2 = param_views(params@);
    match &filters.from {
        Some(x) => {
            let t = trim_chars(chars_of(x.as_str()).as_slice());
            if t.len() > 0 {
                let mut pat = chars_of("%");
                append_chars(&mut pat, t.as_slice());
                append_chars(&mut pat, chars_of("%").as_slice());
                let ps = string_of(pat.as_slice());
                let mut v: Vec<SqlParam> = Vec::new();
                v.push(SqlParam::Text(ps.clone()));
                v.push(SqlParam::Text(ps));
                assert(param_views(v@) =~= from_clause(f.from).1);
                push_clause(&mut sql, &mut params, " AND (m.from_address LIKE ? OR m.from_name LIKE ?)", v);
            }
        },
        None => {},
    }
    assert(sql@ =~= s2 + from_clause(f.from).0);
    assert(param_views(params@) =~= p2 + from_clause(f.from).1);
    let ghost s3 = sql@;
    let ghost p3 = param_views(params@);
    match filters.date_from {
        Some(d) => {
            let mut v: Vec<SqlParam> = Vec::new();
            v.push(SqlParam::Integer(d));
            assert(param_views(v@) =~= seq![ParamView::Integer(d)]);
            push_clause(&mut sql, &mut params, " AND m.received_at >= ?", v);
        },
        None => {},
    }
    let ghost s4 = sql@;
    let ghost p4 = param_views(params@);
    match filters.date_to {
        Some(d) => {
            let mut v: Vec<SqlParam> = Vec::new();
            v.push(SqlParam::Integer(d));
            assert(param_views(v@) =~= seq![ParamView::Integer(d)]);
            push_clause(&mut sql, &mut params, " AND m.received_at <= ?", v);
        },
        None => {},
    }
    let ghost after = match f.date_from {
        Some(d) => (" AND m.received_at >= ?"@, seq![ParamView::Integer(d)]),
        None => (Seq::<char>::empty(), Seq::<ParamView>::empty()),
    };
    let ghost before = match f.date_to {
        Some(d) => (" AND m.received_at <= ?"@, seq![ParamView::Integer(d)]),
        None => (Seq::<char>::empty(), Seq::<ParamView>::empty()),
    };
    assert(s4 =~= s3 + after.0 && p4 =~= p3 + after.1);
    assert(sql@ =~= s4 + before.0 && param_views(params@) =~= p4 + before.1);
    assert(sql@ =~= filter_clause_of(f).0);
    assert(param_views(params@) =~= filter_clause_of(f).1);
    (string_of(sql.as_slice()), params)
}

} // verus!
verus! {

/// Filtered browse: plain newest-first message rows; the mail filters go
/// between the two halves, the limit is the last parameter.
pub const BROWSE_SQL_HEAD: &'static str = "SELECT id, folder_id, subject, from_name, from_address, received_at,
                        preview, is_read, has_attachments, flag_status,
                        inference_classification, is_draft
                   FROM messages m
                  WHERE 1=1";

pub const BROWSE_SQL_TAIL: &'static str = "
                  ORDER BY received_at DESC
                  LIMIT ?";

/// Ranked full-text search. Parameters: ?1 the MATCH expression, ?2 and ?3
/// the highlight markers, ?4 the current time, then the filters' values and
/// the limit. bm25 weighs title over subtitle over body (unindexed columns
/// weigh 0), blended with a mild recency penalty (about 0.01 per day,
/// capped at a year); lower scores rank first.
pub const RANKED_SQL_HEAD: &'static str = "SELECT s.entity_type, s.entity_id,
                    highlight(search_index, 2, ?2, ?3) AS title_hl,
                    snippet(search_index, 4, ?2, ?3, '\u{2026}', 12) AS snip,
                    CAST(s.ts AS INTEGER) AS ts_i,
                    m.id, m.folder_id, m.subject, m.from_name, m.from_address,
                    m.received_at, m.preview, m.is_read, m.has_attachments,
                    m.flag_status, m.inference_classification, m.is_draft,
                    bm25(search_index, 0.0, 0.0, 4.0, 2.0, 1.0, 0.0)
                      + MIN(MAX(?4 - CAST(s.ts AS INTEGER), 0) / 86400.0, 365.0) * 0.01
                      AS score
               FROM search_index s
               LEFT JOIN messages m
                 ON s.entity_type = 'mail' AND m.id = s.entity_id
              WHERE search_index MATCH ?1";

pub const RANKED_SQL_TAIL: &'static str = "
              ORDER BY score
              LIMIT ?";

/// Mail filters are mail concepts: when any is set, non-mail entities are
/// left out of a ranked search.
pub const MAIL_ONLY_GUARD: &'static str = " AND s.entity_type = 'mail'";

/// The statement of a local search and its parameters: a filtered browse
/// when there is no MATCH expression, else a ranked full-text search.
pub open spec fn search_statement_of(f: SearchFilters, match_expr: Option<String>, limit: u32, now: i64) -> (
    Seq<char>,
    Seq<ParamView>,
) {
    let (preds, params) = filter_clause_of(f);
    match match_expr {
        None => (BROWSE_SQL_HEAD@ + preds + BROWSE_SQL_TAIL@, params.push(ParamView::Integer(limit as i64))),
        Some(m) => (
            RANKED_SQL_HEAD@ + (if no_filters(f) {
                Seq::empty()
            } else {
                MAIL_ONLY_GUARD@
            }) + preds + RANKED_SQL_TAIL@,
            seq![
                ParamView::Text(m@),
                ParamView::Text(seq![HIGHLIGHT_START]),
                ParamView::Text(seq![HIGHLIGHT_END]),
                ParamView::Integer(now),
            ] + params.push(ParamView::Integer(limit as i64)),
        ),
    }
}

fn char_string(c: char) -> (r: String)
    ensures
        r@ == seq![c],
{
    let mut v: Vec<char> = Vec::new();
    v.push(c);
    assert(v@ =~= seq![c]);
    string_of(v.as_slice())
}

/// Build the statement of a local search and its parameters.
pub fn search_statement(filters: &SearchFilters, match_expr: Option<String>, limit: u32, now: i64) -> (r: (
    String,
    Vec<SqlParam>,
))
    ensures
        r.0@ == search_statement_of(*filters, match_expr, limit, now).0,
        param_views(r.1@) == search_statement_of(*filters, match_expr, limit, now).1,
{
    let (preds, params) = filter_clause(filters);
    let ghost pv = param_views(params@);
    let mut params = params;
    params.push(SqlParam::Integer(limit as i64));
    assert(param_views(params@) =~= pv.push(ParamView::Integer(limit as i64)));
    match match_expr {
        None => {
            let mut sql = chars_of(BROWSE_SQL_HEAD);
            append_chars(&mut sql, chars_of(preds.as_str()).as_slice());
            append_chars(&mut sql, chars_of(BROWSE_SQL_TAIL).as_slice());
            (string_of(sql.as_slice()), params)
        },
        Some(m) => {
            let mut sql = chars_of(RANKED_SQL_HEAD);
            if !filters.is_empty() {
                append_chars(&mut sql, chars_of(MAIL_ONLY_GUARD).as_slice());
            }
            append_chars(&mut sql, chars_of(preds.as_str()).as_slice());
            append_chars(&mut sql, chars_of(RANKED_SQL_TAIL).as_slice());
            let ghost mv = m@;
            let mut all: Vec<SqlParam> = Vec::new();
            all.push(SqlParam::Text(m));
            all.push(SqlParam::Text(char_string(HIGHLIGHT_START)));
            all.push(SqlParam::Text(char_string(HIGHLIGHT_END)));
            all.push(SqlParam::Integer(now));
            let ghost head = param_views(all@);
            assert(head =~= seq![
                ParamView::Text(mv),
                ParamView::Text(seq![HIGHLIGHT_START]),
                ParamView::Text(seq![HIGHLIGHT_END]),
                ParamView::Integer(now),
            ]);
            let ghost tail = param_views(params@);
            all.append(&mut params);
            assert(param_views(all@) =~= head + tail);
            (string_of(sql.as_slice()), all)
        },
    }
}

} // verus!
verus! {

/// A joined list ends with its last item.
proof fn lemma_join_ends_with_last(ws: Seq<Seq<char>>, sep: Seq<char>)
    requires
        ws.len() > 0,
    ensures
        join(ws, sep).len() >= ws.last().len(),
        join(ws, sep).skip(join(ws, sep).len() - ws.last().len()) == ws.last(),
{
    let j = join(ws, sep);
    if ws.len() == 1 {
        assert(ws[0] == ws.last());
        assert(j.skip(0) =~= j);
    } else {
        let pre = join(ws.drop_last(), sep) + sep;
        assert(j == pre + ws.last());
        assert(j.skip(pre.len() as int) =~= ws.last());
    }
}

/// The date filters bound the server search the way they bound the local
/// one: a "received before" day `d` is the KQL clause `received<=` with
/// `d`'s UTC day, at the end of the query, and the local predicate
/// `m.received_at <= ?` bound to `d`; a "received after" day is
/// `received>=` with its day, just before it (or last). Without a
/// "received after" day, no clause the filters add is a `received>=` one.
pub proof fn law_kql_date_bounds(query: Seq<char>, f: SearchFilters)
    ensures
        f.date_to matches Some(d) ==> {
            &&& kql_parts(query, f).last() == "received<="@ + kql_day(d as int)
            &&& kql(query, f).len() >= ("received<="@ + kql_day(d as int)).len()
            &&& kql(query, f).skip(kql(query, f).len() - ("received<="@ + kql_day(d as int)).len())
                == "received<="@ + kql_day(d as int)
            &&& filter_clause_of(f).1.last() == ParamView::Integer(d)
            &&& filter_clause_of(f).0.len() >= " AND m.received_at <= ?"@.len()
            &&& filter_clause_of(f).0.skip(filter_clause_of(f).0.len() - " AND m.received_at <= ?"@.len())
                == " AND m.received_at <= ?"@
        },
        f.date_from matches Some(d) ==> kql_parts(query, f).contains("received>="@ + kql_day(d as int)),
        f.date_from is None ==> forall|k: int|
            (if trim(query).len() > 0 {
                1int
            } else {
                0int
            }) <= k < kql_parts(query, f).len() ==> !crate::text::starts_with(
                #[trigger] kql_parts(query, f)[k],
                "received>="@,
            ),
{
    reveal_strlit("received<=");
    reveal_strlit("received>=");
    reveal_strlit("from:");
    reveal_strlit("hasAttachment:true");
    let parts = kql_parts(query, f);
    match f.date_to {
        Some(d) => {
            lemma_join_ends_with_last(parts, seq![' ']);
            let (s, p) = filter_clause_of(f);
            let tail = " AND m.received_at <= ?"@;
            assert(s.skip(s.len() - tail.len()) =~= tail);
        },
        None => {},
    }
    match f.date_from {
        Some(d) => {
            let q = trim(query);
            let p1: Seq<Seq<char>> = if q.len() > 0 {
                seq![without_quotes(q)]
            } else {
                Seq::empty()
            };
            let p2 = match f.from {
                Some(from) => if trim(from@).len() > 0 {
                    p1.push("from:"@ + trim(from@))
                } else {
                    p1
                },
                None => p1,
            };
            let p3 = if f.has_attachments {
                p2.push("hasAttachment:true"@)
            } else {
                p2
            };
            let p4 = p3.push("received>="@ + kql_day(d as int));
            assert(p4[p3.len() as int] == "received>="@ + kql_day(d as int));
            match f.date_to {
                Some(e) => {
                    assert(parts == p4.push("received<="@ + kql_day(e as int)));
                    assert(parts[p3.len() as int] == p4[p3.len() as int]);
                },
                None => {},
            }
        },
        None => {
            let q = trim(query);
            let start: int = if q.len() > 0 {
                1
            } else {
                0
            };
            let p1: Seq<Seq<char>> = if q.len() > 0 {
                seq![without_quotes(q)]
            } else {
                Seq::empty()
            };
            let p2 = match f.from {
                Some(from) => if trim(from@).len() > 0 {
                    p1.push("from:"@ + trim(from@))
                } else {
                    p1
                },
                None => p1,
            };
            let p3 = if f.has_attachments {
                p2.push("hasAttachment:true"@)
            } else {
                p2
            };
            assert(p1.len() == start);
            assert forall|k: int| start <= k < p3.len() implies (#[trigger] p3[k]).len() > 0 && (p3[k][0] == 'f'
                || p3[k][0] == 'h') by {
                if k < p2.len() {
                    assert(p3[k] == p2[k]);
                    match f.from {
                        Some(from) => {
                            assert(p2[k] == "from:"@ + trim(from@));
                        },
                        None => {},
                    }
                }
            }
            assert forall|k: int| start <= k < parts.len() implies !crate::text::starts_with(
                #[trigger] parts[k],
                "received>="@,
            ) by {
                let x = parts[k];
                if k < p3.len() {
                    assert(x == p3[k]);
                    assert(x[0] == 'f' || x[0] == 'h');
                    if crate::text::starts_with(x, "received>="@) {
                        assert(x.take(10)[0] == x[0]);
                    }
                } else {
                    match f.date_to {
                        Some(e) => {
                            assert(x == "received<="@ + kql_day(e as int));
                            assert(x[8] == '<');
                            if crate::text::starts_with(x, "received>="@) {
                                assert(x.take(10)[8] == x[8]);
                            }
                        },
                        None => {},
                    }
                }
            }
        },
    }
}

} // verus!
verus! {

/// The other KQL clauses follow the filters: `hasAttachment:true` exactly
/// when attachments are asked for, `from:` with the trimmed sender when one
/// is given, and the trimmed query first, with its quotes removed.
pub proof fn law_kql_follows_filters(query: Seq<char>, f: SearchFilters)
    ensures
        f.has_attachments ==> kql_parts(query, f).contains("hasAttachment:true"@),
        !f.has_attachments ==> forall|k: int|
            (if trim(query).len() > 0 {
                1int
            } else {
                0int
            }) <= k < kql_parts(query, f).len() ==> #[trigger] kql_parts(query, f)[k] != "hasAttachment:true"@,
        f.from matches Some(x) ==> (trim(x@).len() > 0 ==> kql_parts(query, f).contains("from:"@ + trim(x@))),
        trim(query).len() > 0 ==> kql_parts(query, f)[0] == without_quotes(trim(query)),
        trim(query).len() == 0 && f.from is None && !f.has_attachments && f.date_from is None && f.date_to is None
            ==> kql(query, f).len() == 0,
        forall|i: int| 0 <= i < without_quotes(query).len() ==> without_quotes(query)[i] != '"',
{
    reveal_strlit("hasAttachment:true");
    reveal_strlit("from:");
    reveal_strlit("received>=");
    reveal_strlit("received<=");
    lemma_without_quotes(query);
    let q = trim(query);
    let p1: Seq<Seq<char>> = if q.len() > 0 {
        seq![without_quotes(q)]
    } else {
        Seq::empty()
    };
    let p2 = match f.from {
        Some(from) => if trim(from@).len() > 0 {
            p1.push("from:"@ + trim(from@))
        } else {
            p1
        },
        None => p1,
    };
    let p3 = if f.has_attachments {
        p2.push("hasAttachment:true"@)
    } else {
        p2
    };
    let parts = kql_parts(query, f);
    if f.has_attachments {
        assert(parts[p2.len() as int] == "hasAttachment:true"@);
    } else {
        assert forall|k: int| p1.len() <= k < parts.len() implies #[trigger] parts[k] != "hasAttachment:true"@ by {
            if k < p2.len() {
                match f.from {
                    Some(from) => {
                        assert(parts[k] == "from:"@ + trim(from@));
                        assert(parts[k][0] == 'f');
                    },
                    None => {},
                }
            } else {
                match f.date_from {
                    Some(d) => {
                        if k == p2.len() {
                            assert(parts[k] == "received>="@ + kql_day(d as int));
                            assert(parts[k][0] == 'r');
                        } else {
                            match f.date_to {
                                Some(e) => {
                                    assert(parts[k] == "received<="@ + kql_day(e as int));
                                    assert(parts[k][0] == 'r');
                                },
                                None => {},
                            }
                        }
                    },
                    None => {
                        match f.date_to {
                            Some(e) => {
                                assert(parts[k] == "received<="@ + kql_day(e as int));
                                assert(parts[k][0] == 'r');
                            },
                            None => {},
                        }
                    },
                }
            }
        }
    }
    match f.from {
        Some(x) => {
            if trim(x@).len() > 0 {
                assert(parts[p1.len() as int] == "from:"@ + trim(x@));
            }
        },
        None => {},
    }
}

proof fn lemma_without_quotes(s: Seq<char>)
    ensures
        forall|i: int| 0 <= i < without_quotes(s).len() ==> without_quotes(s)[i] != '"',
    decreases s.len(),
{
    if s.len() > 0 {
        lemma_without_quotes(s.drop_last());
        let w = without_quotes(s.drop_last());
        if s.last() != '"' {
            assert forall|i: int| 0 <= i < w.push(s.last()).len() implies w.push(s.last())[i] != '"' by {
                if i < w.len() {
                    assert(w.push(s.last())[i] == w[i]);
                }
            }
        }
    }
}

} // verus!
