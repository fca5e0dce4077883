//! Microsoft Graph: the request/response shapes the mail logic reads, as
//! plain values, and the decisions made on them (mapping delta items to
//! store rows, picking the page token, classifying responses, merging the
//! folder list). HTTP and JSON decoding are the shell's work.
use vstd::prelude::*;
use crate::text::{append_chars, chars_of, decimal, decimal_chars, string_of};

verus! {

pub const GRAPH_BASE: &'static str = "https://graph.microsoft.com/v1.0";

/// Summary fields synced into the local store. Bodies are deliberately
/// excluded (lazy-loaded on open).
pub const MESSAGE_SELECT: &'static str = "id,subject,from,receivedDateTime,bodyPreview,isRead,hasAttachments,conversationId,parentFolderId";

/// Messages per delta page.
pub const DELTA_PAGE_SIZE: u32 = 100;

/// Well-known folder aliases, in the pinned display order the UI uses.
pub const WELL_KNOWN_FOLDERS: [&'static str; 6] = [
    "inbox",
    "sentitems",
    "drafts",
    "archive",
    "junkemail",
    "deleteditems",
];

#[derive(Debug)]
pub enum GraphError {
    /// The request itself failed (the transport's message).
    Http(String),
    Status { status: u16, body: String },
}

pub open spec fn graph_error_text(e: GraphError) -> Seq<char> {
    match e {
        GraphError::Http(m) => "graph request failed: "@ + m@,
        GraphError::Status { status, body } => "graph returned "@ + decimal(status as nat) + ": "@ + body@,
    }
}

impl GraphError {
    /// The error's text.
    pub fn message(&self) -> (r: String)
        ensures
            r@ == graph_error_text(*self),
    {
        let r = match self {
            GraphError::Http(m) => {
                let mut r = chars_of("graph request failed: ");
                append_chars(&mut r, chars_of(m.as_str()).as_slice());
                r
            },
            GraphError::Status { status, body } => {
                let mut r = chars_of("graph returned ");
                append_chars(&mut r, decimal_chars(*status as u64).as_slice());
                append_chars(&mut r, chars_of(": ").as_slice());
                append_chars(&mut r, chars_of(body.as_str()).as_slice());
                r
            },
        };
        string_of(r.as_slice())
    }
}

/// The signed-in user (`/me`).
#[derive(Debug)]
pub struct Me {
    /// Can be null for some account types; callers fall back to the UPN.
    pub display_name: Option<String>,
    pub user_principal_name: String,
}

/// A lazily-fetched message body. `content` is raw Graph output: HTML goes
/// through [`crate::sanitize::sanitize_html`] before it is stored or shown.
#[derive(Debug)]
pub struct FetchedBody {
    pub content: String,
    /// "html" or "text".
    pub content_type: String,
}

} // verus!
verus! {

/// `emailAddress` of a Graph recipient.
#[derive(Debug)]
pub struct GraphEmailAddress {
    pub name: Option<String>,
    pub address: Option<String>,
}

/// A Graph recipient (`{ "emailAddress": ... }`).
#[derive(Debug)]
pub struct GraphRecipient {
    pub email_address: Option<GraphEmailAddress>,
}

/// A delta item as the mail logic reads it.
#[derive(Debug)]
pub struct GraphMessage {
    pub id: String,
    /// Whether the item carries `@removed` (reason `deleted` or `changed`):
    /// either way it left the folder.
    pub removed: bool,
    pub subject: Option<String>,
    pub from: Option<GraphRecipient>,
    pub received_date_time: Option<String>,
    pub body_preview: Option<String>,
    pub is_read: Option<bool>,
    pub has_attachments: Option<bool>,
    pub conversation_id: Option<String>,
    pub parent_folder_id: Option<String>,
}

pub open spec fn or_empty(o: Option<String>) -> Seq<char> {
    match o {
        Some(s) => s@,
        None => Seq::empty(),
    }
}

/// The sender's (name, address); both empty when Graph gives no sender
/// (drafts have no `from`).
pub open spec fn sender_of(from: Option<GraphRecipient>) -> (Seq<char>, Seq<char>) {
    match from {
        Some(r) => match r.email_address {
            Some(e) => (or_empty(e.name), or_empty(e.address)),
            None => (Seq::empty(), Seq::empty()),
        },
        None => (Seq::empty(), Seq::empty()),
    }
}

/// The Unix time of an RFC 3339 text, 0 when absent or unparsable.
pub open spec fn epoch_or_zero(t: Option<String>) -> i64 {
    match t {
        Some(s) => match crate::dates::rfc3339_epoch(s@) {
            Some(e) => e as i64,
            None => 0,
        },
        None => 0,
    }
}

/// The store row for a delta item. The body is never fetched during sync
/// (it is lazy-loaded on open); fields the item does not carry are empty.
pub open spec fn domain_of(g: GraphMessage) -> crate::store::MessageView {
    crate::store::MessageView {
        summary: crate::store::SummaryView {
            id: g.id@,
            folder_id: or_empty(g.parent_folder_id),
            subject: or_empty(g.subject),
            from_name: sender_of(g.from).0,
            from_address: sender_of(g.from).1,
            received_at: epoch_or_zero(g.received_date_time),
            preview: or_empty(g.body_preview),
            is_read: match g.is_read {
                Some(b) => b,
                None => false,
            },
            has_attachments: match g.has_attachments {
                Some(b) => b,
                None => false,
            },
            flag_status: Seq::empty(),
            inference_classification: Seq::empty(),
            is_draft: false,
        },
        conversation_id: crate::store::opt_view(g.conversation_id),
        body_html: None,
        body_content_type: None,
        internet_message_id: None,
        categories: Seq::empty(),
    }
}

fn unwrap_or_empty(o: Option<String>) -> (r: String)
    ensures
        r@ == or_empty(o),
{
    match o {
        Some(s) => s,
        None => String::new(),
    }
}

fn epoch_of(t: Option<String>) -> (r: i64)
    ensures
        r == epoch_or_zero(t),
{
    match t {
        Some(s) => match crate::dates::parse_rfc3339(s.as_str()) {
            Some(e) => e,
            None => 0,
        },
        None => 0,
    }
}

/// Map a delta item to a store row.
pub fn to_domain(g: GraphMessage) -> (r: crate::store::Message)
    ensures
        r@ == domain_of(g),
{
    let ghost gv = g;
    let (from_name, from_address) = match g.from {
        Some(r) => match r.email_address {
            Some(e) => (unwrap_or_empty(e.name), unwrap_or_empty(e.address)),
            None => (String::new(), String::new()),
        },
        None => (String::new(), String::new()),
    };
    let m = crate::store::Message {
        summary: crate::store::MessageSummary {
            id: g.id,
            folder_id: unwrap_or_empty(g.parent_folder_id),
            subject: unwrap_or_empty(g.subject),
            from_name,
            from_address,
            received_at: epoch_of(g.received_date_time),
            preview: unwrap_or_empty(g.body_preview),
            is_read: match g.is_read {
                Some(b) => b,
                None => false,
            },
            has_attachments: match g.has_attachments {
                Some(b) => b,
                None => false,
            },
            flag_status: String::new(),
            inference_classification: String::new(),
            is_draft: false,
        },
        conversation_id: g.conversation_id,
        body_html: None,
        body_content_type: None,
        internet_message_id: None,
        categories: Vec::new(),
    };
    assert(m@.summary =~= domain_of(gv).summary);
    assert(m@.categories =~= Seq::<Seq<char>>::empty());
    assert(m@ =~= domain_of(gv));
    m
}

/// The items that stay, as store rows, in order.
pub open spec fn delta_upserts(items: Seq<GraphMessage>) -> Seq<crate::store::MessageView>
    decreases items.len(),
{
    if items.len() == 0 {
        Seq::empty()
    } else if items.last().removed {
        delta_upserts(items.drop_last())
    } else {
        delta_upserts(items.drop_last()).push(domain_of(items.last()))
    }
}

/// The ids of the items that left the folder, in order.
pub open spec fn delta_removals(items: Seq<GraphMessage>) -> Seq<Seq<char>>
    decreases items.len(),
{
    if items.len() == 0 {
        Seq::empty()
    } else if items.last().removed {
        delta_removals(items.drop_last()).push(items.last().id@)
    } else {
        delta_removals(items.drop_last())
    }
}

/// Split a delta page's items into rows to upsert and ids to delete.
pub fn split_delta(items: Vec<GraphMessage>) -> (r: (Vec<crate::store::Message>, Vec<String>))
    ensures
        crate::store::message_views(r.0@) == delta_upserts(items@),
        crate::store::string_views(r.1@) == delta_removals(items@),
{
    let ghost all = items@;
    let mut messages: Vec<crate::store::Message> = Vec::new();
    let mut removed: Vec<String> = Vec::new();
    let mut rest = items;
    let ghost n = all.len();
    assert(all.skip(0) =~= all);
    while rest.len() > 0
        invariant
            n == all.len(),
            rest@.len() <= n,
            rest@ == all.skip(n - rest@.len()),
            crate::store::message_views(messages@) == delta_upserts(all.take(n - rest@.len())),
            crate::store::string_views(removed@) == delta_removals(all.take(n - rest@.len())),
        decreases rest@.len(),
    {
        let ghost k = n - rest@.len();
        let item = rest.remove(0);
        proof {
            assert(item == all[k]);
            assert(rest@ =~= all.skip(k + 1));
            assert(all.take(k + 1).drop_last() =~= all.take(k));
            assert(all.take(k + 1).last() == all[k]);
        }
        let ghost pm = crate::store::message_views(messages@);
        let ghost pr = crate::store::string_views(removed@);
        if item.removed {
            let ghost iv = item.id@;
            removed.push(item.id);
            assert(crate::store::string_views(removed@) =~= pr.push(iv));
        } else {
            let ghost gi = item;
            let m = to_domain(item);
            messages.push(m);
            assert(crate::store::message_views(messages@) =~= pm.push(domain_of(gi)));
        }
    }
    assert(all.take(n as int) =~= all);
    (messages, removed)
}

/// The page token a delta response carries: a `nextLink` wins; a
/// response with neither link is a protocol error.
pub fn page_token(next_link: Option<String>, delta_link: Option<String>) -> (r: Result<
    crate::sync::PageToken,
    crate::sync::SourceError,
>)
    ensures
        match (next_link, delta_link) {
            (Some(n), _) => r matches Ok(crate::sync::PageToken::Next(u)) && u@ == n@,
            (None, Some(d)) => r matches Ok(crate::sync::PageToken::Delta(u)) && u@ == d@,
            (None, None) => r matches Err(crate::sync::SourceError::Protocol(m))
                && m@ == "delta response carried neither nextLink nor deltaLink"@,
        },
{
    match (next_link, delta_link) {
        (Some(n), _) => Ok(crate::sync::PageToken::Next(n)),
        (None, Some(d)) => Ok(crate::sync::PageToken::Delta(d)),
        (None, None) => Err(
            crate::sync::SourceError::Protocol(
                String::from_str("delta response carried neither nextLink nor deltaLink"),
            ),
        ),
    }
}

/// A Graph `body` / `uniqueBody` object.
#[derive(Debug)]
pub struct GraphBody {
    pub content_type: Option<String>,
    pub content: Option<String>,
}

/// The body to keep for a message: `body`, else `uniqueBody`; "html" only
/// when Graph says so, "text" otherwise.
pub fn fetched_body(body: Option<GraphBody>, unique_body: Option<GraphBody>) -> (r: Result<
    FetchedBody,
    crate::sync::SourceError,
>)
    ensures
        (body is None && unique_body is None) <==> r is Err,
        r matches Err(e) ==> (e matches crate::sync::SourceError::Protocol(m) && m@ == "message has no body"@),
        r matches Ok(f) ==> {
            let b = if body is Some {
                body->0
            } else {
                unique_body->0
            };
            &&& f.content@ == or_empty(b.content)
            &&& f.content_type@ == if b.content_type is Some && b.content_type->0@ == "html"@ {
                "html"@
            } else {
                "text"@
            }
        },
{
    let b = match body {
        Some(b) => b,
        None => match unique_body {
            Some(u) => u,
            None => {
                return Err(crate::sync::SourceError::Protocol(String::from_str("message has no body")));
            },
        },
    };
    let is_html = match &b.content_type {
        Some(t) => crate::text::str_eq(t.as_str(), "html"),
        None => false,
    };
    Ok(FetchedBody {
        content: unwrap_or_empty(b.content),
        content_type: String::from_str(if is_html { "html" } else { "text" }),
    })
}

} // verus!
verus! {

pub open spec fn all_digits(s: Seq<char>) -> bool {
    forall|i: int| 0 <= i < s.len() ==> '0' <= #[trigger] s[i] <= '9'
}

pub open spec fn digits_value(s: Seq<char>) -> int
    decreases s.len(),
{
    if s.len() == 0 {
        0
    } else {
        digits_value(s.drop_last()) * 10 + ((s.last() as int) - ('0' as int))
    }
}

/// What `str::parse::<u64>` accepts: an optional `+`, then one or more
/// decimal digits whose value fits.
pub open spec fn parsed_u64(s: Seq<char>) -> Option<u64> {
    let d = if s.len() > 0 && s[0] == '+' {
        s.drop_first()
    } else {
        s
    };
    if d.len() > 0 && all_digits(d) && digits_value(d) <= u64::MAX {
        Some(digits_value(d) as u64)
    } else {
        None
    }
}

proof fn lemma_digits_grow(d: Seq<char>, i: int)
    requires
        all_digits(d),
        0 <= i <= d.len(),
    ensures
        0 <= digits_value(d.take(i)) <= digits_value(d),
    decreases d.len() - i,
{
    if i < d.len() {
        lemma_digits_grow(d, i + 1);
        assert(d.take(i + 1).drop_last() =~= d.take(i));
        assert(d.take(i + 1).last() == d[i]);
        lemma_digits_nonneg(d.take(i));
    } else {
        assert(d.take(i) =~= d);
        lemma_digits_nonneg(d);
    }
}

proof fn lemma_digits_nonneg(d: Seq<char>)
    requires
        all_digits(d),
    ensures
        digits_value(d) >= 0,
    decreases d.len(),
{
    if d.len() > 0 {
        assert(all_digits(d.drop_last()));
        lemma_digits_nonneg(d.drop_last());
        assert('0' <= d[d.len() - 1] <= '9');
    }
}

/// `str::parse::<u64>`.
pub fn parse_u64(s: &str) -> (r: Option<u64>)
    ensures
        r == parsed_u64(s@),
{
    let cs = chars_of(s);
    let start: usize = if cs.len() > 0 && cs[0] == '+' {
        1
    } else {
        0
    };
    let ghost d = if s@.len() > 0 && s@[0] == '+' {
        s@.drop_first()
    } else {
        s@
    };
    assert(d =~= cs@.skip(start as int));
    if start >= cs.len() {
        return None;
    }
    let mut acc: u128 = 0;
    let mut i = start;
    while i < cs.len()
        invariant
            start <= i <= cs@.len(),
            cs@ == s@,
            start == 0 || start == 1,
            d == (if s@.len() > 0 && s@[0] == '+' {
                s@.drop_first()
            } else {
                s@
            }),
            d == cs@.skip(start as int),
            all_digits(d.take(i - start)),
            acc == digits_value(d.take(i - start)),
            acc <= u64::MAX,
        decreases cs@.len() - i,
    {
        let c = cs[i];
        proof {
            assert(d.take(i - start + 1).drop_last() =~= d.take(i - start));
            assert(d.take(i - start + 1).last() == c);
        }
        if c < '0' || c > '9' {
            proof {
                assert(d[i - start] == c);
            }
            return None;
        }
        acc = acc * 10 + ((c as u32) - 48) as u128;
        proof {
            assert(acc == digits_value(d.take(i - start + 1)));
            assert(all_digits(d.take(i - start + 1)));
        }
        if acc > 0xffff_ffff_ffff_ffffu128 {
            proof {
                let k = i - start + 1;
                assert(all_digits(d.take(k)));
                if all_digits(d) {
                    lemma_digits_grow(d, k);
                }
            }
            return None;
        }
        i = i + 1;
    }
    assert(d.take(i - start) =~= d);
    Some(acc as u64)
}

/// What to do with a Graph response, by status: refresh the token and retry
/// once on the first 401; give up as unauthorized on a second; report a
/// 429 as a throttle carrying Retry-After (5 s when absent or unreadable);
/// read the body into an error for any other non-2xx; accept a 2xx.
#[derive(Debug)]
pub enum ResponseAction {
    RefreshAndRetry,
    Fail(crate::sync::SourceError),
    ReadErrorBody(u16),
    Accept,
}

pub open spec fn retry_after_secs(header: Option<Seq<char>>) -> u64 {
    match header {
        Some(h) => match parsed_u64(h) {
            Some(v) => v,
            None => 5,
        },
        None => 5,
    }
}

pub fn classify_response(status: u16, attempt: u32, retry_after: Option<&str>) -> (r: ResponseAction)
    ensures
        status == 401 && attempt == 0 ==> r is RefreshAndRetry,
        status == 401 && attempt != 0 ==> r matches ResponseAction::Fail(crate::sync::SourceError::Unauthorized),
        status == 429 ==> (r matches ResponseAction::Fail(crate::sync::SourceError::Throttled { retry_after_secs: s })
            && s == retry_after_secs(crate::store::str_opt_view(retry_after))),
        status != 401 && status != 429 && !(200 <= status < 300) ==> r == ResponseAction::ReadErrorBody(status),
        200 <= status < 300 ==> r is Accept,
{
    if status == 401 {
        if attempt == 0 {
            ResponseAction::RefreshAndRetry
        } else {
            ResponseAction::Fail(crate::sync::SourceError::Unauthorized)
        }
    } else if status == 429 {
        let secs = match retry_after {
            Some(h) => match parse_u64(h) {
                Some(v) => v,
                None => 5,
            },
            None => 5,
        };
        ResponseAction::Fail(crate::sync::SourceError::Throttled { retry_after_secs: secs })
    } else if status < 200 || status >= 300 {
        ResponseAction::ReadErrorBody(status)
    } else {
        ResponseAction::Accept
    }
}

/// The error for a non-2xx response: its status, then the body text.
pub fn http_status_error(status: u16, body: &str) -> (r: crate::sync::SourceError)
    ensures
        r matches crate::sync::SourceError::Http(m) && m@ == decimal(status as nat) + ": "@ + body@,
{
    let mut v = decimal_chars(status as u64);
    append_chars(&mut v, chars_of(": ").as_slice());
    append_chars(&mut v, chars_of(body).as_slice());
    crate::sync::SourceError::Http(string_of(v.as_slice()))
}

/// How a failed token fetch surfaces to sync: missing or rejected sign-in
/// is `Unauthorized`; anything else is an HTTP error with its message.
pub fn auth_to_source(e: &crate::auth::AuthError) -> (r: crate::sync::SourceError)
    ensures
        (*e is NeedsSignIn || *e is NotConfigured) ==> r is Unauthorized,
        !(*e is NeedsSignIn || *e is NotConfigured) ==> (r matches crate::sync::SourceError::Http(m) && m@
            == crate::auth::auth_error_text(*e)),
{
    match e {
        crate::auth::AuthError::NeedsSignIn | crate::auth::AuthError::NotConfigured => crate::sync::SourceError::Unauthorized,
        other => crate::sync::SourceError::Http(other.message()),
    }
}

/// The delta endpoint of a folder.
pub fn delta_url(folder_id: &str) -> (r: String)
    ensures
        r@ == GRAPH_BASE@ + "/me/mailFolders/"@ + folder_id@ + "/messages/delta"@,
{
    let mut v = chars_of(GRAPH_BASE);
    append_chars(&mut v, chars_of("/me/mailFolders/").as_slice());
    append_chars(&mut v, chars_of(folder_id).as_slice());
    append_chars(&mut v, chars_of("/messages/delta").as_slice());
    string_of(v.as_slice())
}

/// The `$filter` of an initial walk: everything received since the cutoff.
pub fn delta_filter(since_epoch: i64) -> (r: String)
    ensures
        r@ == "receivedDateTime ge "@ + crate::dates::rfc3339_or_unix_epoch(since_epoch as int),
{
    let mut v = chars_of("receivedDateTime ge ");
    append_chars(&mut v, chars_of(crate::dates::epoch_to_rfc3339(since_epoch).as_str()).as_slice());
    string_of(v.as_slice())
}

/// How many recent messages the cutoff query asks for: `n` within 1..=1000.
pub fn backfill_window(n: u32) -> (r: u32)
    ensures
        r == if n < 1 {
            1
        } else if n > 1000 {
            1000
        } else {
            n
        },
{
    if n < 1 {
        1
    } else if n > 1000 {
        1000
    } else {
        n
    }
}

/// The oldest parsable time among `dates`, or `now` when there is none.
pub open spec fn oldest_or(dates: Seq<Option<String>>, now: i64) -> i64
    decreases dates.len(),
{
    if dates.len() == 0 {
        now
    } else {
        let rest = oldest_or(dates.drop_last(), now);
        let found = oldest_among(dates.drop_last());
        match dates.last() {
            Some(t) => match crate::dates::rfc3339_epoch(t@) {
                Some(e) => if found is None || (e as i64) < rest {
                    e as i64
                } else {
                    rest
                },
                None => rest,
            },
            None => rest,
        }
    }
}

/// The oldest parsable time among `dates`, if any.
pub open spec fn oldest_among(dates: Seq<Option<String>>) -> Option<i64>
    decreases dates.len(),
{
    if dates.len() == 0 {
        None
    } else {
        let rest = oldest_among(dates.drop_last());
        match dates.last() {
            Some(t) => match crate::dates::rfc3339_epoch(t@) {
                Some(e) => match rest {
                    Some(r) => if (e as i64) < r {
                        Some(e as i64)
                    } else {
                        Some(r)
                    },
                    None => Some(e as i64),
                },
                None => rest,
            },
            None => rest,
        }
    }
}

/// The backfill cutoff: the oldest of the N newest messages' times, `now`
/// for an empty folder.
pub fn backfill_cutoff_from(dates: &Vec<Option<String>>, now: i64) -> (r: i64)
    ensures
        r == match oldest_among(dates@) {
            Some(e) => e,
            None => now,
        },
{
    let mut best: Option<i64> = None;
    let mut i: usize = 0;
    while i < dates.len()
        invariant
            i <= dates@.len(),
            best == oldest_among(dates@.take(i as int)),
        decreases dates@.len() - i,
    {
        proof {
            assert(dates@.take(i + 1).drop_last() =~= dates@.take(i as int));
            assert(dates@.take(i + 1).last() == dates@[i as int]);
        }
        match &dates[i] {
            Some(t) => match crate::dates::parse_rfc3339(t.as_str()) {
                Some(e) => {
                    best = match best {
                        Some(b) => if e < b {
                            Some(e)
                        } else {
                            Some(b)
                        },
                        None => Some(e),
                    };
                },
                None => {},
            },
            None => {},
        }
        i = i + 1;
    }
    assert(dates@.take(dates@.len() as int) =~= dates@);
    match best {
        Some(e) => e,
        None => now,
    }
}

/// A mail folder as Graph lists it.
#[derive(Debug)]
pub struct GraphFolder {
    pub id: String,
    pub display_name: Option<String>,
    pub parent_folder_id: Option<String>,
}

/// A well-known folder resolved through its alias; the alias names it
/// when Graph gives no display name.
pub fn well_known_folder(alias: &str, g: GraphFolder) -> (r: crate::store::Folder)
    ensures
        r.id@ == g.id@,
        r.display_name@ == match g.display_name {
            Some(d) => d@,
            None => alias@,
        },
        r.well_known_name matches Some(w) && w@ == alias@,
        crate::store::opt_view(r.parent_id) == crate::store::opt_view(g.parent_folder_id),
{
    let display_name = match g.display_name {
        Some(d) => d,
        None => String::from_str(alias),
    };
    crate::store::Folder {
        id: g.id,
        display_name,
        well_known_name: Some(String::from_str(alias)),
        parent_id: g.parent_folder_id,
    }
}

/// An alias the mailbox lacks answers 404; it is skipped, not an error.
pub fn is_missing_alias(e: &crate::sync::SourceError) -> (r: bool)
    ensures
        r == (e matches crate::sync::SourceError::Http(m) && crate::text::starts_with(m@, "404"@)),
{
    match e {
        crate::sync::SourceError::Http(m) => {
            let h = chars_of(m.as_str());
            let p = chars_of("404");
            crate::text::has_prefix(h.as_slice(), p.as_slice())
        },
        _ => false,
    }
}

pub open spec fn has_folder_id(v: Seq<crate::store::FolderView>, id: Seq<char>) -> bool {
    exists|i: int| 0 <= i < v.len() && v[i].id == id
}

/// The folder list after the user's top-level folders are added to the
/// well-known ones: each folder once, the first listing winning.
pub open spec fn with_listed(known: Seq<crate::store::FolderView>, listed: Seq<GraphFolder>) -> Seq<
    crate::store::FolderView,
>
    decreases listed.len(),
{
    if listed.len() == 0 {
        known
    } else {
        let acc = with_listed(known, listed.drop_last());
        let g = listed.last();
        if has_folder_id(acc, g.id@) {
            acc
        } else {
            acc.push(
                crate::store::FolderView {
                    id: g.id@,
                    display_name: or_empty(g.display_name),
                    well_known_name: None,
                    parent_id: crate::store::opt_view(g.parent_folder_id),
                },
            )
        }
    }
}

/// Append the listed folders not already present.
pub fn merge_folder_list(known: Vec<crate::store::Folder>, listed: Vec<GraphFolder>) -> (r: Vec<
    crate::store::Folder,
>)
    ensures
        crate::store::folder_views(r@) == with_listed(crate::store::folder_views(known@), listed@),
{
    let ghost kv = crate::store::folder_views(known@);
    let ghost all = listed@;
    let mut out = known;
    let mut rest = listed;
    let ghost n = all.len();
    assert(all.skip(0) =~= all);
    assert(all.take(0) =~= Seq::<GraphFolder>::empty());
    while rest.len() > 0
        invariant
            n == all.len(),
            rest@.len() <= n,
            rest@ == all.skip(n - rest@.len()),
            crate::store::folder_views(out@) == with_listed(kv, all.take(n - rest@.len())),
        decreases rest@.len(),
    {
        let ghost k = n - rest@.len();
        let g = rest.remove(0);
        proof {
            assert(g == all[k]);
            assert(rest@ =~= all.skip(k + 1));
            assert(all.take(k + 1).drop_last() =~= all.take(k));
            assert(all.take(k + 1).last() == all[k]);
        }
        let ghost ov = crate::store::folder_views(out@);
        let mut seen = false;
        let mut j: usize = 0;
        while j < out.len()
            invariant
                j <= out@.len(),
                ov == crate::store::folder_views(out@),
                seen == exists|q: int| 0 <= q < j && ov[q].id == g.id@,
            decreases out@.len() - j,
        {
            if crate::text::str_eq(out[j].id.as_str(), g.id.as_str()) {
                seen = true;
            }
            proof {
                assert(ov[j as int].id == out@[j as int].id@);
            }
            j = j + 1;
        }
        if !seen {
            let ghost gv = g;
            let f = crate::store::Folder {
                id: g.id,
                display_name: unwrap_or_empty(g.display_name),
                well_known_name: None,
                parent_id: g.parent_folder_id,
            };
            out.push(f);
            assert(crate::store::folder_views(out@) =~= ov.push(
                crate::store::FolderView {
                    id: gv.id@,
                    display_name: or_empty(gv.display_name),
                    well_known_name: None,
                    parent_id: crate::store::opt_view(gv.parent_folder_id),
                },
            ));
        }
    }
    assert(all.take(n as int) =~= all);
    out
}

} // verus!
verus! {

/// One internet message header.
#[derive(Debug)]
pub struct GraphHeader {
    pub name: String,
    pub value: String,
}

/// What reply construction reads of the original message.
#[derive(Debug)]
pub struct GraphReplyContext {
    pub internet_message_id: Option<String>,
    pub internet_message_headers: Option<Vec<GraphHeader>>,
    pub from: Option<GraphRecipient>,
    pub reply_to: Option<Vec<GraphRecipient>>,
    pub to_recipients: Option<Vec<GraphRecipient>>,
    pub cc_recipients: Option<Vec<GraphRecipient>>,
    pub subject: Option<String>,
    pub received_date_time: Option<String>,
}

/// A recipient as an address; `None` when Graph gives no `emailAddress`.
pub open spec fn email_of(r: GraphRecipient) -> Option<(Seq<char>, Seq<char>)> {
    match r.email_address {
        Some(e) => Some((or_empty(e.name), or_empty(e.address))),
        None => None,
    }
}

pub open spec fn email_pair(e: crate::compose::EmailAddress) -> (Seq<char>, Seq<char>) {
    (e.name@, e.address@)
}

pub open spec fn email_pairs(v: Seq<crate::compose::EmailAddress>) -> Seq<(Seq<char>, Seq<char>)> {
    v.map_values(|e: crate::compose::EmailAddress| email_pair(e))
}

/// The addresses of the recipients that carry one, in order.
pub open spec fn emails_of(rs: Seq<GraphRecipient>) -> Seq<(Seq<char>, Seq<char>)>
    decreases rs.len(),
{
    if rs.len() == 0 {
        Seq::empty()
    } else {
        match email_of(rs.last()) {
            Some(e) => emails_of(rs.drop_last()).push(e),
            None => emails_of(rs.drop_last()),
        }
    }
}

fn rec_to_email(r: GraphRecipient) -> (o: Option<crate::compose::EmailAddress>)
    ensures
        match o {
            Some(e) => email_of(r) == Some(email_pair(e)),
            None => email_of(r) is None,
        },
{
    match r.email_address {
        Some(e) => Some(crate::compose::EmailAddress { name: unwrap_or_empty(e.name), address: unwrap_or_empty(e.address) }),
        None => None,
    }
}

fn recipients_to_emails(rs: Option<Vec<GraphRecipient>>) -> (r: Vec<crate::compose::EmailAddress>)
    ensures
        email_pairs(r@) == match rs {
            Some(v) => emails_of(v@),
            None => Seq::empty(),
        },
{
    let v = match rs {
        Some(v) => v,
        None => {
            let e: Vec<crate::compose::EmailAddress> = Vec::new();
            assert(email_pairs(e@) =~= Seq::<(Seq<char>, Seq<char>)>::empty());
            return e;
        },
    };
    let ghost all = v@;
    let ghost n = all.len();
    let mut out: Vec<crate::compose::EmailAddress> = Vec::new();
    let mut rest = v;
    assert(all.skip(0) =~= all);
    assert(all.take(0) =~= Seq::<GraphRecipient>::empty());
    while rest.len() > 0
        invariant
            n == all.len(),
            rest@.len() <= n,
            rest@ == all.skip(n - rest@.len()),
            email_pairs(out@) == emails_of(all.take(n - rest@.len())),
        decreases rest@.len(),
    {
        let ghost k = n - rest@.len();
        let r = rest.remove(0);
        proof {
            assert(r == all[k]);
            assert(rest@ =~= all.skip(k + 1));
            assert(all.take(k + 1).drop_last() =~= all.take(k));
            assert(all.take(k + 1).last() == all[k]);
        }
        let ghost prev = email_pairs(out@);
        match rec_to_email(r) {
            Some(e) => {
                let ghost ep = email_pair(e);
                out.push(e);
                assert(email_pairs(out@) =~= prev.push(ep));
            },
            None => {},
        }
    }
    assert(all.take(n as int) =~= all);
    out
}

/// The `References` header, matched case-insensitively; the first wins.
pub open spec fn references_header(hs: Seq<GraphHeader>) -> Option<Seq<char>>
    decreases hs.len(),
{
    if hs.len() == 0 {
        None
    } else if crate::text::same_ignoring_ascii_case(hs[0].name@, "References"@) {
        Some(hs[0].value@)
    } else {
        references_header(hs.drop_first())
    }
}

fn header_is_references(h: &GraphHeader) -> (r: bool)
    ensures
        r == crate::text::same_ignoring_ascii_case(h.name@, "References"@),
{
    let name = chars_of(h.name.as_str());
    let target = chars_of("References");
    crate::text::eq_ignore_ascii_case(name.as_slice(), target.as_slice())
}

/// Everything reply and forward construction needs from the original.
pub fn reply_context_from(g: GraphReplyContext) -> (r: crate::compose::ReplyContext)
    ensures
        crate::store::opt_view(r.internet_message_id) == crate::store::opt_view(g.internet_message_id),
        crate::compose::strings(r.references@) == match g.internet_message_headers {
            Some(hs) => match references_header(hs@) {
                Some(v) => crate::compose::parsed_references(v),
                None => Seq::empty(),
            },
            None => Seq::empty(),
        },
        match r.from {
            Some(e) => g.from matches Some(f) && email_of(f) == Some(email_pair(e)),
            None => g.from is None || email_of(g.from->0) is None,
        },
        email_pairs(r.reply_to@) == match g.reply_to {
            Some(v) => emails_of(v@),
            None => Seq::empty(),
        },
        email_pairs(r.to@) == match g.to_recipients {
            Some(v) => emails_of(v@),
            None => Seq::empty(),
        },
        email_pairs(r.cc@) == match g.cc_recipients {
            Some(v) => emails_of(v@),
            None => Seq::empty(),
        },
        r.subject@ == or_empty(g.subject),
        r.received_at == epoch_or_zero(g.received_date_time),
{
    let references = match &g.internet_message_headers {
        Some(hs) => {
            let mut i: usize = 0;
            let ghost hv = hs@;
            assert(hv.skip(0) =~= hv);
            while i < hs.len() && !header_is_references(&hs[i])
                invariant
                    i <= hv.len(),
                    hv == hs@,
                    references_header(hv) == references_header(hv.skip(i as int)),
                decreases hv.len() - i,
            {
                proof {
                    assert(hv.skip(i as int)[0] == hv[i as int]);
                    assert(hv.skip(i as int).drop_first() =~= hv.skip(i + 1));
                }
                i = i + 1;
            }
            if i < hs.len() {
                proof {
                    assert(hv.skip(i as int)[0] == hv[i as int]);
                }
                crate::compose::parse_references(hs[i].value.as_str())
            } else {
                proof {
                    assert(hv.skip(i as int) =~= Seq::<GraphHeader>::empty());
                }
                let e: Vec<String> = Vec::new();
                assert(crate::compose::strings(e@) =~= Seq::<Seq<char>>::empty());
                e
            }
        },
        None => {
            let e: Vec<String> = Vec::new();
            assert(crate::compose::strings(e@) =~= Seq::<Seq<char>>::empty());
            e
        },
    };
    let from = match g.from {
        Some(f) => rec_to_email(f),
        None => None,
    };
    crate::compose::ReplyContext {
        internet_message_id: g.internet_message_id,
        references,
        from,
        reply_to: recipients_to_emails(g.reply_to),
        to: recipients_to_emails(g.to_recipients),
        cc: recipients_to_emails(g.cc_recipients),
        subject: unwrap_or_empty(g.subject),
        received_at: epoch_of(g.received_date_time),
    }
}

} // verus!
verus! {

/// The store row made from a delta item carries the item's own facts: its
/// id, its subject (empty when absent), whether it was read, and whether it
/// has attachments (`hasAttachments: true` and nothing else marks it).
pub proof fn law_delta_item_maps_to_its_row(g: GraphMessage)
    ensures
        domain_of(g).summary.id == g.id@,
        domain_of(g).summary.has_attachments == (g.has_attachments == Some(true)),
        domain_of(g).summary.is_read == (g.is_read == Some(true)),
        g.subject matches Some(s) ==> domain_of(g).summary.subject == s@,
        g.subject is None ==> domain_of(g).summary.subject.len() == 0,
{
}

/// A delta page upserts exactly one row per item still in the folder, in
/// order, and each row keeps its item's id and attachment flag; removed
/// items give no row.
pub proof fn law_delta_rows_keep_item_flags(items: Seq<GraphMessage>)
    ensures
        forall|k: int|
            0 <= k < delta_upserts(items).len() ==> exists|i: int|
                0 <= i < items.len() && !items[i].removed && (#[trigger] delta_upserts(items)[k]).summary.id
                    == items[i].id@ && delta_upserts(items)[k].summary.has_attachments == (items[i].has_attachments
                    == Some(true)),
        forall|i: int|
            0 <= i < items.len() && !(#[trigger] items[i]).removed ==> exists|k: int|
                0 <= k < delta_upserts(items).len() && delta_upserts(items)[k].summary.id == items[i].id@
                    && delta_upserts(items)[k].summary.has_attachments == (items[i].has_attachments == Some(true)),
    decreases items.len(),
{
    if items.len() > 0 {
        let p = items.drop_last();
        law_delta_rows_keep_item_flags(p);
        let last = items.last();
        let rows = delta_upserts(items);
        let prows = delta_upserts(p);
        law_delta_item_maps_to_its_row(last);
        assert forall|k: int| 0 <= k < rows.len() implies exists|i: int|
            0 <= i < items.len() && !items[i].removed && (#[trigger] rows[k]).summary.id == items[i].id@
                && rows[k].summary.has_attachments == (items[i].has_attachments == Some(true)) by {
            if k < prows.len() {
                assert(rows[k] == prows[k]);
                let i = choose|i: int|
                    0 <= i < p.len() && !p[i].removed && (#[trigger] prows[k]).summary.id == p[i].id@
                        && prows[k].summary.has_attachments == (p[i].has_attachments == Some(true));
                assert(items[i] == p[i]);
            } else {
                assert(rows[k] == domain_of(last));
                assert(items[items.len() - 1] == last);
            }
        }
        assert forall|i: int| 0 <= i < items.len() && !(#[trigger] items[i]).removed implies exists|k: int|
            0 <= k < rows.len() && rows[k].summary.id == items[i].id@ && rows[k].summary.has_attachments
                == (items[i].has_attachments == Some(true)) by {
            if i < p.len() {
                assert(items[i] == p[i]);
                assert(!p[i].removed);
                let k = choose|k: int|
                    0 <= k < prows.len() && prows[k].summary.id == p[i].id@ && prows[k].summary.has_attachments
                        == (p[i].has_attachments == Some(true));
                assert(rows[k] == prows[k]);
            } else {
                assert(items[i] == last);
                assert(rows[prows.len() as int] == domain_of(last));
            }
        }
    }
}

} // verus!
verus! {

/// The rest of a delta item's row: its folder, preview, sender and
/// conversation come from the item (empty where absent); a missing
/// received date is 0; nothing the item does not carry is invented (no
/// body, no categories, no Message-ID, not a draft, unread unless marked
/// read).
pub proof fn law_delta_item_row_fields(g: GraphMessage)
    ensures
        g.parent_folder_id matches Some(f) ==> domain_of(g).summary.folder_id == f@,
        g.body_preview matches Some(p) ==> domain_of(g).summary.preview == p@,
        g.from matches Some(r) ==> (r.email_address matches Some(e) ==> (e.address matches Some(a)
            ==> domain_of(g).summary.from_address == a@)),
        g.from matches Some(r) ==> (r.email_address matches Some(e) ==> (e.name matches Some(n)
            ==> domain_of(g).summary.from_name == n@)),
        g.from is None ==> domain_of(g).summary.from_address.len() == 0,
        g.received_date_time is None ==> domain_of(g).summary.received_at == 0,
        g.conversation_id matches Some(c) ==> domain_of(g).conversation_id == Some(c@),
        domain_of(g).body_html is None && domain_of(g).categories.len() == 0,
        domain_of(g).internet_message_id is None && !domain_of(g).summary.is_draft,
        g.is_read is None ==> !domain_of(g).summary.is_read,
{
}

} // verus!
