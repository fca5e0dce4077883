//! What a compose window opens with: the mode it was asked for, the
//! signature kind, the recipients, subject and threading headers of a reply
//! or forward, and the quotable body of the original. The fetches that feed
//! these (local store, Graph) happen outside; these functions decide.
use vstd::prelude::*;
use crate::compose::{
    build_references, Draft, forward_subject, forward_subject_of, normalize_msgid, normalized_msgid,
    references_for_reply, reply_recipients, reply_recipients_of, reply_subject, reply_subject_of,
    strings, ComposeMode, EmailAddress, ReplyContext,
};
use crate::graph::FetchedBody;
use crate::memory_store::pair_views;
use crate::sanitize::{sanitize_html, sanitized};
use crate::store::MessageSummary;
use crate::text::{append_chars, chars_of, str_eq, string_of};

verus! {

/// The compose mode a window parameter names; any other name opens a blank
/// message.
pub open spec fn mode_named(name: Seq<char>) -> ComposeMode {
    if name == "reply"@ {
        ComposeMode::Reply
    } else if name == "replyAll"@ {
        ComposeMode::ReplyAll
    } else if name == "forward"@ {
        ComposeMode::Forward
    } else {
        ComposeMode::New
    }
}

/// Read the compose mode from its window parameter.
pub fn parse_compose_mode(name: &str) -> (m: ComposeMode)
    ensures
        m == mode_named(name@),
{
    if str_eq(name, "reply") {
        ComposeMode::Reply
    } else if str_eq(name, "replyAll") {
        ComposeMode::ReplyAll
    } else if str_eq(name, "forward") {
        ComposeMode::Forward
    } else {
        ComposeMode::New
    }
}

/// The stored signature that a mode starts with: "new" for a blank message,
/// "reply" for replies and forwards.
pub open spec fn signature_kind_of(mode: ComposeMode) -> Seq<char> {
    if mode == ComposeMode::New {
        "new"@
    } else {
        "reply"@
    }
}

pub fn signature_kind(mode: ComposeMode) -> (r: String)
    ensures
        r@ == signature_kind_of(mode),
{
    match mode {
        ComposeMode::New => String::from_str("new"),
        _ => String::from_str("reply"),
    }
}

/// Without the original's recipient lists (offline), reply-all can only
/// degrade to reply.
pub open spec fn effective_mode_of(mode: ComposeMode, degraded: bool) -> ComposeMode {
    if degraded && mode == ComposeMode::ReplyAll {
        ComposeMode::Reply
    } else {
        mode
    }
}

pub fn effective_mode(mode: ComposeMode, degraded: bool) -> (r: ComposeMode)
    ensures
        r == effective_mode_of(mode, degraded),
{
    if degraded {
        match mode {
            ComposeMode::ReplyAll => ComposeMode::Reply,
            _ => mode,
        }
    } else {
        mode
    }
}

/// The reply context that local data alone gives: the sender, subject and
/// date of the stored summary, and no message-id, references or recipient
/// lists.
pub open spec fn is_local_context(r: ReplyContext, s: MessageSummary) -> bool {
    &&& r.internet_message_id is None
    &&& r.references@.len() == 0
    &&& r.from matches Some(f) && f.name@ == s.from_name@ && f.address@ == s.from_address@
    &&& r.reply_to@.len() == 0
    &&& r.to@.len() == 0
    &&& r.cc@.len() == 0
    &&& r.subject@ == s.subject@
    &&& r.received_at == s.received_at
}

pub fn local_reply_context(summary: &MessageSummary) -> (r: ReplyContext)
    ensures
        is_local_context(r, *summary),
{
    ReplyContext {
        internet_message_id: None,
        references: Vec::new(),
        from: Some(EmailAddress { name: summary.from_name.clone(), address: summary.from_address.clone() }),
        reply_to: Vec::new(),
        to: Vec::new(),
        cc: Vec::new(),
        subject: summary.subject.clone(),
        received_at: summary.received_at,
    }
}

/// The reply context to compose from, and whether it is degraded: the one
/// fetched from the server when the fetch succeeded, else the one the local
/// summary gives, else an error (the original is nowhere to be had).
pub fn choose_reply_context(fetched: Option<ReplyContext>, local: Option<&MessageSummary>) -> (r: Result<
    (ReplyContext, bool),
    String,
>)
    ensures
        fetched is Some ==> r == Ok::<(ReplyContext, bool), String>((fetched->0, false)),
        fetched is None && local is Some ==> (r matches Ok((c, d)) && d && is_local_context(c, *local->0)),
        fetched is None && local is None ==> (r matches Err(e) && e@ == "original message unavailable"@),
{
    match fetched {
        Some(ctx) => Ok((ctx, false)),
        None => match local {
            Some(s) => Ok((local_reply_context(s), true)),
            None => Err(String::from_str("original message unavailable")),
        },
    }
}

/// Replies (not forwards) carry threading headers.
pub open spec fn threads(mode: ComposeMode) -> bool {
    mode == ComposeMode::Reply || mode == ComposeMode::ReplyAll
}

/// The subject a compose window starts with.
pub open spec fn compose_subject_of(subject: Seq<char>, mode: ComposeMode) -> Seq<char> {
    if mode == ComposeMode::Forward {
        forward_subject_of(subject)
    } else {
        reply_subject_of(subject)
    }
}

/// The fields a reply or forward window opens with.
pub struct ReplyFields {
    pub to: Vec<EmailAddress>,
    pub cc: Vec<EmailAddress>,
    pub subject: String,
    pub in_reply_to: Option<String>,
    pub references: Vec<String>,
}

/// `In-Reply-To` and `References` of a reply: set from the original's
/// Message-ID where there is one and the mode threads, else empty (forwards
/// don't thread; degraded replies can't).
pub open spec fn threading_ok(ctx: ReplyContext, mode: ComposeMode, in_reply_to: Option<String>, refs: Seq<String>) -> bool {
    match ctx.internet_message_id {
        Some(mid) => if threads(mode) {
            &&& in_reply_to matches Some(x) && x@ == normalized_msgid(mid@)
            &&& strings(refs) == references_for_reply(strings(ctx.references@), mid@)
        } else {
            in_reply_to is None && refs.len() == 0
        },
        None => in_reply_to is None && refs.len() == 0,
    }
}

/// Recipients, subject and threading headers of a reply or forward.
/// `mode` names the window; `degraded` says the context came from local data.
pub fn reply_fields(ctx: &ReplyContext, self_addr: &str, mode: ComposeMode, degraded: bool) -> (r: ReplyFields)
    ensures
        (r.to@, r.cc@) == reply_recipients_of(*ctx, self_addr@, effective_mode_of(mode, degraded)),
        r.subject@ == compose_subject_of(ctx.subject@, mode),
        threading_ok(*ctx, effective_mode_of(mode, degraded), r.in_reply_to, r.references@),
{
    let eff = effective_mode(mode, degraded);
    let (to, cc) = reply_recipients(ctx, self_addr, eff);
    let subject = match mode {
        ComposeMode::Forward => forward_subject(ctx.subject.as_str()),
        _ => reply_subject(ctx.subject.as_str()),
    };
    let threaded = match eff {
        ComposeMode::Reply | ComposeMode::ReplyAll => true,
        _ => false,
    };
    let (in_reply_to, references) = match &ctx.internet_message_id {
        Some(mid) => if threaded {
            (Some(normalize_msgid(mid.as_str())), build_references(ctx.references.as_slice(), mid.as_str()))
        } else {
            (None, Vec::new())
        },
        None => (None, Vec::new()),
    };
    ReplyFields { to, cc, subject, in_reply_to, references }
}

/// `&`, `<` and `>` escaped, for a plain-text body shown in a `<pre>` block.
pub open spec fn pre_escaped_char(c: char) -> Seq<char> {
    if c == '&' {
        "&amp;"@
    } else if c == '<' {
        "&lt;"@
    } else if c == '>' {
        "&gt;"@
    } else {
        seq![c]
    }
}

pub open spec fn pre_escaped(s: Seq<char>) -> Seq<char>
    decreases s.len(),
{
    if s.len() == 0 {
        Seq::empty()
    } else {
        pre_escaped(s.drop_last()) + pre_escaped_char(s.last())
    }
}

/// A fetched body made ready to quote: HTML is sanitized, plain text is
/// escaped into a `<pre>` block.
pub open spec fn quotable_of(content: Seq<char>, content_type: Seq<char>) -> Seq<char> {
    if content_type == "html"@ {
        sanitized(content)
    } else {
        "<pre>"@ + pre_escaped(content) + "</pre>"@
    }
}

fn pre_escape(s: &[char]) -> (r: Vec<char>)
    ensures
        r@ == pre_escaped(s@),
{
    let mut r: Vec<char> = Vec::new();
    let mut i: usize = 0;
    while i < s.len()
        invariant
            i <= s@.len(),
            r@ == pre_escaped(s@.take(i as int)),
        decreases s@.len() - i,
    {
        let c = s[i];
        let piece: Vec<char> = if c == '&' {
            chars_of("&amp;")
        } else if c == '<' {
            chars_of("&lt;")
        } else if c == '>' {
            chars_of("&gt;")
        } else {
            let mut v: Vec<char> = Vec::new();
            v.push(c);
            assert(v@ =~= seq![c]);
            v
        };
        append_chars(&mut r, piece.as_slice());
        i = i + 1;
        assert(s@.take(i as int).drop_last() =~= s@.take(i - 1));
    }
    assert(s@.take(s@.len() as int) =~= s@);
    r
}

/// The body of a fetched original, ready to quote.
pub fn quotable_body(fetched: &FetchedBody) -> (r: String)
    ensures
        r@ == quotable_of(fetched.content@, fetched.content_type@),
{
    if str_eq(fetched.content_type.as_str(), "html") {
        sanitize_html(fetched.content.as_str())
    } else {
        let mut out = chars_of("<pre>");
        let body = chars_of(fetched.content.as_str());
        let esc = pre_escape(body.as_slice());
        append_chars(&mut out, esc.as_slice());
        let tail = chars_of("</pre>");
        append_chars(&mut out, tail.as_slice());
        string_of(out.as_slice())
    }
}

/// Every recipient of a draft (to, then cc, then bcc) as the
/// `(address, name)` pairs that the send history records.
pub open spec fn history_pairs(list: Seq<EmailAddress>) -> Seq<(Seq<char>, Seq<char>)> {
    list.map_values(|a: EmailAddress| (a.address@, a.name@))
}

fn push_pairs(out: &mut Vec<(String, String)>, list: &Vec<EmailAddress>)
    ensures
        pair_views(final(out)@) == pair_views(old(out)@) + history_pairs(list@),
{
    let ghost start = pair_views(out@);
    let mut i: usize = 0;
    while i < list.len()
        invariant
            i <= list@.len(),
            pair_views(out@) == start + history_pairs(list@.take(i as int)),
        decreases list@.len() - i,
    {
        let ghost prev = out@;
        let a = list[i].address.clone();
        let n = list[i].name.clone();
        out.push((a, n));
        assert(pair_views(out@) =~= pair_views(prev).push((a@, n@)));
        i = i + 1;
        assert(history_pairs(list@.take(i as int)) =~= history_pairs(list@.take(i - 1)).push(
            (list@[i - 1].address@, list@[i - 1].name@),
        ));
        assert(pair_views(out@) =~= start + history_pairs(list@.take(i as int)));
    }
    assert(list@.take(list@.len() as int) =~= list@);
}

/// The recipients of a sent draft, for the send history.
pub fn sent_recipients(draft: &Draft) -> (r: Vec<(String, String)>)
    ensures
        pair_views(r@) == history_pairs(draft.to@ + draft.cc@ + draft.bcc@),
{
    let mut r: Vec<(String, String)> = Vec::new();
    push_pairs(&mut r, &draft.to);
    push_pairs(&mut r, &draft.cc);
    push_pairs(&mut r, &draft.bcc);
    assert(pair_views(Seq::<(String, String)>::empty()) =~= Seq::empty());
    assert(history_pairs(draft.to@ + draft.cc@ + draft.bcc@) =~= history_pairs(draft.to@) + history_pairs(draft.cc@)
        + history_pairs(draft.bcc@));
    assert(pair_views(r@) =~= history_pairs(draft.to@) + history_pairs(draft.cc@) + history_pairs(draft.bcc@));
    r
}

/// How many recipients a queued draft has, as the send toast reports it.
pub fn recipient_count(draft: &Draft) -> (r: usize)
    requires
        draft.to@.len() + draft.cc@.len() + draft.bcc@.len() <= usize::MAX,
    ensures
        r == draft.to@.len() + draft.cc@.len() + draft.bcc@.len(),
{
    draft.to.len() + draft.cc.len() + draft.bcc.len()
}

/// What follows a send attempt of a queued draft.
pub enum AfterSend {
    /// Sent: these `(address, name)` pairs go into the send history.
    Sent { recipients: Vec<(String, String)> },
    /// Failed: the draft reopens in a composer with the error; it is never
    /// dropped.
    Reopen { draft: Draft, error: String },
}

/// Decide what follows a send attempt. A failed send hands the draft back
/// unchanged with the reason; a successful one records its recipients.
pub fn after_send(draft: Draft, result: Result<(), String>) -> (a: AfterSend)
    ensures
        result is Ok ==> (a matches AfterSend::Sent { recipients } && pair_views(recipients@) == history_pairs(
            draft.to@ + draft.cc@ + draft.bcc@,
        )),
        result matches Err(e) ==> (a matches AfterSend::Reopen { draft: d, error } && d == draft && error@
            == "send failed: "@ + e@),
{
    match result {
        Ok(()) => AfterSend::Sent { recipients: sent_recipients(&draft) },
        Err(e) => {
            let mut msg = chars_of("send failed: ");
            append_chars(&mut msg, chars_of(e.as_str()).as_slice());
            AfterSend::Reopen { draft, error: string_of(msg.as_slice()) }
        },
    }
}

} // verus!
