//! Outbound message construction: reply/forward semantics, RFC 5322
//! threading headers, quoting, and MIME building.
//!
//! Graph's JSON `sendMail` payload rejects standard headers, so
//! `In-Reply-To`/`References` can only be set by posting a complete
//! base64-encoded MIME message; [`build_mime`] produces it.
use vstd::prelude::*;
use base64::Engine;
use mail_builder::MessageBuilder;
use crate::text::{
    append_chars, chars_of, eq_ignore_ascii_case, lower, same_ignoring_ascii_case, split_whitespace,
    starts_with, string_of, trim, trim_chars, trim_start, trim_start_chars, views, words,
};

verus! {

/// Total raw attachment budget. Graph caps requests at about 4 MB and inline
/// attachments ride through two base64 passes, so 2 MB raw stays under it.
pub const MAX_ATTACHMENT_TOTAL_BYTES: usize = 2097152;

#[derive(Debug, PartialEq, Eq)]
pub struct EmailAddress {
    pub name: String,
    pub address: String,
}

impl Clone for EmailAddress {
    fn clone(&self) -> (r: Self)
        ensures
            r == *self,
    {
        EmailAddress { name: self.name.clone(), address: self.address.clone() }
    }
}

#[derive(Debug, Clone, Copy, PartialEq, Eq)]
pub enum ComposeMode {
    New,
    Reply,
    ReplyAll,
    Forward,
}

#[derive(Debug)]
pub struct DraftAttachment {
    pub name: String,
    pub content_type: String,
    pub content_base64: String,
}

impl Clone for DraftAttachment {
    fn clone(&self) -> (r: Self)
        ensures
            r == *self,
    {
        DraftAttachment {
            name: self.name.clone(),
            content_type: self.content_type.clone(),
            content_base64: self.content_base64.clone(),
        }
    }
}

#[derive(Debug, Clone)]
pub struct Draft {
    pub to: Vec<EmailAddress>,
    pub cc: Vec<EmailAddress>,
    pub bcc: Vec<EmailAddress>,
    pub subject: String,
    pub body: String,
    /// "html" or "text".
    pub content_type: String,
    /// Normalized message-id (no angle brackets).
    pub in_reply_to: Option<String>,
    /// Normalized message-ids, oldest first.
    pub references: Vec<String>,
    pub attachments: Vec<DraftAttachment>,
}

/// What reply/forward construction needs from the original message.
#[derive(Debug, Clone, Default)]
pub struct ReplyContext {
    pub internet_message_id: Option<String>,
    /// The original's own References chain (normalized ids).
    pub references: Vec<String>,
    pub from: Option<EmailAddress>,
    pub reply_to: Vec<EmailAddress>,
    pub to: Vec<EmailAddress>,
    pub cc: Vec<EmailAddress>,
    pub subject: String,
    pub received_at: i64,
}

#[derive(Debug)]
pub enum ComposeError {
    NoRecipients,
    AttachmentsTooLarge { total: usize, max: usize },
    BadAttachment { name: String },
    Mime(String),
}

/// The views of a sequence of strings.
pub open spec fn strings(v: Seq<String>) -> Seq<Seq<char>> {
    v.map_values(|s: String| s@)
}

// ---------------------------------------------------------------------------
// Message-ids and the References chain
// ---------------------------------------------------------------------------

/// A message-id with surrounding whitespace and one layer of angle brackets
/// removed (`mail-builder` re-adds the brackets when writing headers).
pub open spec fn normalized_msgid(raw: Seq<char>) -> Seq<char> {
    let t = trim(raw);
    let a = if t.len() > 0 && t[0] == '<' {
        t.drop_first()
    } else {
        t
    };
    if a.len() > 0 && a.last() == '>' {
        a.drop_last()
    } else {
        a
    }
}

fn normalize_chars(raw: &[char]) -> (r: Vec<char>)
    ensures
        r@ == normalized_msgid(raw@),
{
    let t = trim_chars(raw);
    let lo: usize = if t.len() > 0 && t[0] == '<' {
        1
    } else {
        0
    };
    let hi: usize = if t.len() > lo && t[t.len() - 1] == '>' {
        t.len() - 1
    } else {
        t.len()
    };
    let r = crate::text::copy_range(t.as_slice(), lo, hi);
    proof {
        let a = if t@.len() > 0 && t@[0] == '<' {
            t@.drop_first()
        } else {
            t@
        };
        assert(a =~= t@.subrange(lo as int, t@.len() as int));
        if a.len() > 0 && a.last() == '>' {
            assert(r@ =~= a.drop_last());
        } else {
            assert(r@ =~= a);
        }
    }
    r
}

/// Strip surrounding whitespace and one layer of angle brackets from a
/// message-id.
pub fn normalize_msgid(raw: &str) -> (r: String)
    ensures
        r@ == normalized_msgid(raw@),
{
    let cs = chars_of(raw);
    let n = normalize_chars(cs.as_slice());
    string_of(n.as_slice())
}

/// The non-empty ids of a list, in order.
pub open spec fn nonempty_only(ids: Seq<Seq<char>>) -> Seq<Seq<char>>
    decreases ids.len(),
{
    if ids.len() == 0 {
        Seq::empty()
    } else {
        let r = nonempty_only(ids.drop_last());
        if ids.last().len() > 0 {
            r.push(ids.last())
        } else {
            r
        }
    }
}

/// Every id normalized.
pub open spec fn normalized_all(ids: Seq<Seq<char>>) -> Seq<Seq<char>> {
    ids.map_values(|i: Seq<char>| normalized_msgid(i))
}

/// The ids of a raw `References` header: whitespace-separated, each
/// normalized, empties dropped.
pub open spec fn parsed_references(header: Seq<char>) -> Seq<Seq<char>> {
    nonempty_only(normalized_all(words(header)))
}

/// Normalize each id and keep the non-empty ones.
fn normalize_nonempty(src: &Vec<Vec<char>>) -> (r: Vec<String>)
    ensures
        strings(r@) == nonempty_only(normalized_all(views(src@))),
{
    let ghost ids = views(src@);
    let mut r: Vec<String> = Vec::new();
    let mut i: usize = 0;
    while i < src.len()
        invariant
            i <= src@.len(),
            views(src@) == ids,
            strings(r@) == nonempty_only(normalized_all(ids.take(i as int))),
        decreases src@.len() - i,
    {
        let n = normalize_chars(src[i].as_slice());
        let ghost before = strings(r@);
        proof {
            assert(normalized_all(ids.take(i + 1)).drop_last() =~= normalized_all(ids.take(i as int)));
            assert(normalized_all(ids.take(i + 1)).last() == n@);
        }
        if n.len() > 0 {
            r.push(string_of(n.as_slice()));
            assert(strings(r@) =~= before.push(n@));
        }
        i = i + 1;
    }
    assert(ids.take(src@.len() as int) =~= ids);
    r
}

/// Split a raw `References` header into normalized ids.
pub fn parse_references(header: &str) -> (r: Vec<String>)
    ensures
        strings(r@) == parsed_references(header@),
{
    let cs = chars_of(header);
    let ws = split_whitespace(cs.as_slice());
    normalize_nonempty(&ws)
}

/// RFC 5322 §3.6.4: the reply's References are the original's References
/// followed by the original's Message-ID (unless already present).
pub open spec fn references_for_reply(original: Seq<Seq<char>>, message_id: Seq<char>) -> Seq<Seq<char>> {
    let refs = nonempty_only(normalized_all(original));
    let mid = normalized_msgid(message_id);
    if mid.len() > 0 && !refs.contains(mid) {
        refs.push(mid)
    } else {
        refs
    }
}

fn contains_id(ids: &Vec<String>, id: &String) -> (r: bool)
    ensures
        r == strings(ids@).contains(id@),
{
    let mut i: usize = 0;
    while i < ids.len()
        invariant
            i <= ids@.len(),
            forall|j: int| 0 <= j < i ==> ids@[j]@ != id@,
        decreases ids@.len() - i,
    {
        if ids[i] == *id {
            assert(strings(ids@)[i as int] == id@);
            return true;
        }
        i = i + 1;
    }
    false
}

/// Build the References list of a reply from the original's chain and its
/// Message-ID.
pub fn build_references(original_refs: &[String], internet_message_id: &str) -> (r: Vec<String>)
    ensures
        strings(r@) == references_for_reply(strings(original_refs@), internet_message_id@),
{
    let mut src: Vec<Vec<char>> = Vec::new();
    let mut i: usize = 0;
    while i < original_refs.len()
        invariant
            i <= original_refs@.len(),
            views(src@) == strings(original_refs@).take(i as int),
        decreases original_refs@.len() - i,
    {
        let ghost prev = views(src@);
        let cs = chars_of(original_refs[i].as_str());
        assert(cs@ == strings(original_refs@)[i as int]);
        src.push(cs);
        assert(views(src@) =~= prev.push(cs@));
        i = i + 1;
        assert(views(src@) =~= strings(original_refs@).take(i as int));
    }
    assert(strings(original_refs@).take(original_refs@.len() as int) =~= strings(original_refs@));
    let mut refs = normalize_nonempty(&src);
    let mid = normalize_msgid(internet_message_id);
    if !mid.as_str().is_empty() && !contains_id(&refs, &mid) {
        let ghost before = strings(refs@);
        refs.push(mid);
        assert(strings(refs@) =~= before.push(mid@));
    }
    refs
}

} // verus!
verus! {

// ---------------------------------------------------------------------------
// Subjects
// ---------------------------------------------------------------------------

/// The subject, leading whitespace dropped and ASCII-lowercased, begins with
/// `p`. (The prefixes are ASCII letters and ':', and no non-ASCII character
/// lowercases to 'r', 'e', 'f', 'w', 'd' or ':', so Unicode lowercasing
/// decides this the same way.)
pub open spec fn has_subject_prefix(subject: Seq<char>, p: Seq<char>) -> bool {
    starts_with(lower(trim_start(subject)), p)
}

fn has_prefix(subject: &str, prefixes: &[&str]) -> (r: bool)
    ensures
        r == exists|i: int| 0 <= i < prefixes@.len() && has_subject_prefix(subject@, #[trigger] prefixes@[i]@),
{
    let cs = chars_of(subject);
    let t = trim_start_chars(cs.as_slice());
    let l = crate::text::ascii_lowercase(t.as_slice());
    let mut i: usize = 0;
    while i < prefixes.len()
        invariant
            i <= prefixes@.len(),
            l@ == lower(trim_start(subject@)),
            forall|j: int| 0 <= j < i ==> !has_subject_prefix(subject@, #[trigger] prefixes@[j]@),
        decreases prefixes@.len() - i,
    {
        let p = chars_of(prefixes[i]);
        if crate::text::has_prefix(l.as_slice(), p.as_slice()) {
            return true;
        }
        i = i + 1;
    }
    false
}

/// The reply subject: `Re: ` prefixed once; an existing `Re:` (any case) is
/// kept as it is. Surrounding whitespace is trimmed either way.
pub open spec fn reply_subject_of(original: Seq<char>) -> Seq<char> {
    if has_subject_prefix(original, "re:"@) {
        trim(original)
    } else {
        "Re: "@ + trim(original)
    }
}

/// The forward subject: `Fw: ` prefixed once; an existing `Fw:` or `Fwd:`
/// (any case) is kept as it is.
pub open spec fn forward_subject_of(original: Seq<char>) -> Seq<char> {
    if has_subject_prefix(original, "fw:"@) || has_subject_prefix(original, "fwd:"@) {
        trim(original)
    } else {
        "Fw: "@ + trim(original)
    }
}

fn prefixed(prefix: &str, original: &str) -> (r: String)
    ensures
        r@ == prefix@ + trim(original@),
{
    let mut out = chars_of(prefix);
    let cs = chars_of(original);
    let t = trim_chars(cs.as_slice());
    append_chars(&mut out, t.as_slice());
    string_of(out.as_slice())
}

fn trimmed(original: &str) -> (r: String)
    ensures
        r@ == trim(original@),
{
    let cs = chars_of(original);
    let t = trim_chars(cs.as_slice());
    string_of(t.as_slice())
}

/// `Re:`-prefix once; an existing Re:/RE: (any case) is left alone.
pub fn reply_subject(original: &str) -> (r: String)
    ensures
        r@ == reply_subject_of(original@),
{
    let ps: [&str; 1] = ["re:"];
    if has_prefix(original, ps.as_slice()) {
        trimmed(original)
    } else {
        assert(ps@[0]@ == "re:"@);
        prefixed("Re: ", original)
    }
}

/// `Fw:`-prefix once; existing Fw:/Fwd: (any case) is left alone.
pub fn forward_subject(original: &str) -> (r: String)
    ensures
        r@ == forward_subject_of(original@),
{
    let ps: [&str; 2] = ["fw:", "fwd:"];
    assert(ps@[0]@ == "fw:"@ && ps@[1]@ == "fwd:"@);
    if has_prefix(original, ps.as_slice()) {
        trimmed(original)
    } else {
        prefixed("Fw: ", original)
    }
}

// ---------------------------------------------------------------------------
// Recipients
// ---------------------------------------------------------------------------

/// Two addresses are the same mailbox when equal up to ASCII case.
pub open spec fn same_address(a: Seq<char>, b: Seq<char>) -> bool {
    same_ignoring_ascii_case(a, b)
}

fn same_addr(a: &str, b: &str) -> (r: bool)
    ensures
        r == same_address(a@, b@),
{
    let x = chars_of(a);
    let y = chars_of(b);
    eq_ignore_ascii_case(x.as_slice(), y.as_slice())
}

/// Some entry of `list` has the mailbox `a`.
pub open spec fn has_addr(list: Seq<EmailAddress>, a: Seq<char>) -> bool {
    exists|j: int| 0 <= j < list.len() && same_address(#[trigger] list[j].address@, a)
}

pub open spec fn excluded(a: Seq<char>, exclude: Option<Seq<char>>) -> bool {
    match exclude {
        Some(e) => same_address(a, e),
        None => false,
    }
}

/// Recipients in order with empty addresses, the excluded mailbox and
/// repeats (up to ASCII case) dropped; the first occurrence wins.
pub open spec fn deduped(list: Seq<EmailAddress>, exclude: Option<Seq<char>>) -> Seq<EmailAddress>
    decreases list.len(),
{
    if list.len() == 0 {
        Seq::empty()
    } else {
        let out = deduped(list.drop_last(), exclude);
        let item = list.last();
        if item.address@.len() == 0 || excluded(item.address@, exclude) || has_addr(
            out,
            item.address@,
        ) {
            out
        } else {
            out.push(item)
        }
    }
}

pub open spec fn opt_view(o: Option<&str>) -> Option<Seq<char>> {
    match o {
        Some(s) => Some(s@),
        None => None,
    }
}

fn has_addr_exec(list: &Vec<EmailAddress>, a: &str) -> (r: bool)
    ensures
        r == has_addr(list@, a@),
{
    let mut j: usize = 0;
    while j < list.len()
        invariant
            j <= list@.len(),
            forall|k: int| 0 <= k < j ==> !same_address(#[trigger] list@[k].address@, a@),
        decreases list@.len() - j,
    {
        if same_addr(list[j].address.as_str(), a) {
            return true;
        }
        j = j + 1;
    }
    false
}

fn dedupe(list: Vec<EmailAddress>, exclude: Option<&str>) -> (r: Vec<EmailAddress>)
    ensures
        r@ == deduped(list@, opt_view(exclude)),
{
    let mut out: Vec<EmailAddress> = Vec::new();
    let mut i: usize = 0;
    while i < list.len()
        invariant
            i <= list@.len(),
            out@ == deduped(list@.take(i as int), opt_view(exclude)),
        decreases list@.len() - i,
    {
        let item = list[i].clone();
        proof {
            assert(list@.take(i + 1).drop_last() =~= list@.take(i as int));
            assert(list@.take(i + 1).last() == item);
        }
        let skip = if item.address.as_str().is_empty() {
            true
        } else {
            let ex = match exclude {
                Some(e) => same_addr(item.address.as_str(), e),
                None => false,
            };
            ex || has_addr_exec(&out, item.address.as_str())
        };
        if !skip {
            out.push(item);
        }
        i = i + 1;
    }
    assert(list@.take(list@.len() as int) =~= list@);
    out
}

/// The original's sender side: Reply-To when present, else From.
pub open spec fn originator(ctx: ReplyContext) -> Seq<EmailAddress> {
    if ctx.reply_to@.len() > 0 {
        ctx.reply_to@
    } else {
        match ctx.from {
            Some(f) => seq![f],
            None => Seq::empty(),
        }
    }
}

/// The entries of `list` whose mailbox is not in `to`.
pub open spec fn not_in(list: Seq<EmailAddress>, to: Seq<EmailAddress>) -> Seq<EmailAddress>
    decreases list.len(),
{
    if list.len() == 0 {
        Seq::empty()
    } else {
        let r = not_in(list.drop_last(), to);
        if has_addr(to, list.last().address@) {
            r
        } else {
            r.push(list.last())
        }
    }
}

/// Recipient lists (to, cc) for a reply. Reply-all excludes the signed-in
/// address (case-insensitively) and drops nobody else; if excluding self
/// would empty `to` (replying to your own sent mail), the original `to` is
/// kept.
pub open spec fn reply_recipients_of(ctx: ReplyContext, self_addr: Seq<char>, mode: ComposeMode) -> (
    Seq<EmailAddress>,
    Seq<EmailAddress>,
) {
    match mode {
        ComposeMode::Reply => {
            let to = deduped(originator(ctx), Some(self_addr));
            if to.len() == 0 {
                (deduped(ctx.to@, None), Seq::empty())
            } else {
                (to, Seq::empty())
            }
        },
        ComposeMode::ReplyAll => {
            let to0 = deduped(originator(ctx) + ctx.to@, Some(self_addr));
            let to = if to0.len() == 0 {
                deduped(ctx.to@, None)
            } else {
                to0
            };
            (to, not_in(deduped(ctx.cc@, Some(self_addr)), to))
        },
        _ => (Seq::empty(), Seq::empty()),
    }
}

fn clone_addrs(v: &Vec<EmailAddress>) -> (r: Vec<EmailAddress>)
    ensures
        r@ == v@,
{
    let mut r: Vec<EmailAddress> = Vec::new();
    let mut i: usize = 0;
    while i < v.len()
        invariant
            i <= v@.len(),
            r@ == v@.take(i as int),
        decreases v@.len() - i,
    {
        r.push(v[i].clone());
        i = i + 1;
        assert(r@ =~= v@.take(i as int));
    }
    assert(v@.take(v@.len() as int) =~= v@);
    r
}

fn originator_exec(ctx: &ReplyContext) -> (r: Vec<EmailAddress>)
    ensures
        r@ == originator(*ctx),
{
    if ctx.reply_to.len() > 0 {
        clone_addrs(&ctx.reply_to)
    } else {
        let mut r: Vec<EmailAddress> = Vec::new();
        match &ctx.from {
            Some(f) => {
                r.push(f.clone());
                assert(r@ =~= seq![*f]);
            },
            None => {},
        }
        assert(r@ =~= originator(*ctx));
        r
    }
}

fn not_in_exec(list: Vec<EmailAddress>, to: &Vec<EmailAddress>) -> (r: Vec<EmailAddress>)
    ensures
        r@ == not_in(list@, to@),
{
    let mut r: Vec<EmailAddress> = Vec::new();
    let mut i: usize = 0;
    while i < list.len()
        invariant
            i <= list@.len(),
            r@ == not_in(list@.take(i as int), to@),
        decreases list@.len() - i,
    {
        let item = list[i].clone();
        proof {
            assert(list@.take(i + 1).drop_last() =~= list@.take(i as int));
            assert(list@.take(i + 1).last() == item);
        }
        if !has_addr_exec(to, item.address.as_str()) {
            r.push(item);
        }
        i = i + 1;
    }
    assert(list@.take(list@.len() as int) =~= list@);
    r
}

/// Recipient lists for a reply. Reply-all excludes the signed-in address
/// (case-insensitively) and drops nobody else; if excluding self would empty
/// `to` (replying to your own sent mail), the original `to` is kept.
pub fn reply_recipients(ctx: &ReplyContext, self_addr: &str, mode: ComposeMode) -> (r: (
    Vec<EmailAddress>,
    Vec<EmailAddress>,
))
    ensures
        (r.0@, r.1@) == reply_recipients_of(*ctx, self_addr@, mode),
{
    let originator = originator_exec(ctx);
    match mode {
        ComposeMode::Reply => {
            let to = dedupe(originator, Some(self_addr));
            if to.len() == 0 {
                (dedupe(clone_addrs(&ctx.to), None), Vec::new())
            } else {
                (to, Vec::new())
            }
        },
        ComposeMode::ReplyAll => {
            let mut all = originator;
            let mut others = clone_addrs(&ctx.to);
            let ghost o = all@;
            all.append(&mut others);
            assert(all@ =~= o + ctx.to@);
            let to0 = dedupe(all, Some(self_addr));
            let to = if to0.len() == 0 {
                dedupe(clone_addrs(&ctx.to), None)
            } else {
                to0
            };
            let cc0 = dedupe(clone_addrs(&ctx.cc), Some(self_addr));
            let cc = not_in_exec(cc0, &to);
            (to, cc)
        },
        _ => (Vec::new(), Vec::new()),
    }
}

} // verus!
verus! {

/// No two entries of the list share a mailbox.
pub open spec fn distinct_addrs(list: Seq<EmailAddress>) -> bool {
    forall|i: int, j: int|
        0 <= i < j < list.len() ==> !same_address(#[trigger] list[i].address@, #[trigger] list[j].address@)
}

proof fn lemma_deduped(list: Seq<EmailAddress>, ex: Option<Seq<char>>)
    ensures
        forall|k: int|
            0 <= k < deduped(list, ex).len() ==> {
                &&& (#[trigger] deduped(list, ex)[k]).address@.len() > 0
                &&& !excluded(deduped(list, ex)[k].address@, ex)
                &&& list.contains(deduped(list, ex)[k])
            },
        distinct_addrs(deduped(list, ex)),
        forall|k: int|
            0 <= k < list.len() && (#[trigger] list[k]).address@.len() > 0 && !excluded(
                list[k].address@,
                ex,
            ) ==> has_addr(deduped(list, ex), list[k].address@),
    decreases list.len(),
{
    if list.len() > 0 {
        let prev = list.drop_last();
        lemma_deduped(prev, ex);
        let out = deduped(prev, ex);
        let item = list.last();
        assert forall|k: int| 0 <= k < prev.len() implies #[trigger] list.contains(prev[k]) by {
            assert(list[k] == prev[k]);
        }
        assert forall|k: int|
            0 <= k < list.len() && (#[trigger] list[k]).address@.len() > 0 && !excluded(
                list[k].address@,
                ex,
            ) implies has_addr(deduped(list, ex), list[k].address@) by {
            if k < prev.len() {
                assert(prev[k] == list[k]);
                let j = choose|j: int|
                    0 <= j < out.len() && same_address(#[trigger] out[j].address@, prev[k].address@);
                assert(deduped(list, ex)[j] == out[j]);
            } else if !has_addr(out, item.address@) {
                assert(deduped(list, ex)[out.len() as int] == item);
            }
        }
        assert forall|k: int| 0 <= k < deduped(list, ex).len() implies list.contains(
            #[trigger] deduped(list, ex)[k],
        ) by {
            if k < out.len() {
                assert(deduped(list, ex)[k] == out[k]);
                assert(prev.contains(out[k]));
                let m = choose|m: int| 0 <= m < prev.len() && prev[m] == out[k];
                assert(list[m] == out[k]);
            } else {
                assert(list[list.len() - 1] == item);
            }
        }
    }
}

proof fn lemma_not_in(list: Seq<EmailAddress>, to: Seq<EmailAddress>)
    ensures
        forall|k: int|
            0 <= k < not_in(list, to).len() ==> list.contains(#[trigger] not_in(list, to)[k])
                && !has_addr(to, not_in(list, to)[k].address@),
        forall|k: int|
            0 <= k < list.len() && !has_addr(to, (#[trigger] list[k]).address@) ==> has_addr(
                not_in(list, to),
                list[k].address@,
            ),
        distinct_addrs(list) ==> distinct_addrs(not_in(list, to)),
    decreases list.len(),
{
    if list.len() > 0 {
        let prev = list.drop_last();
        lemma_not_in(prev, to);
        let r = not_in(prev, to);
        let item = list.last();
        assert forall|k: int| 0 <= k < not_in(list, to).len() implies list.contains(
            #[trigger] not_in(list, to)[k],
        ) && !has_addr(to, not_in(list, to)[k].address@) by {
            if k < r.len() {
                assert(not_in(list, to)[k] == r[k]);
                let m = choose|m: int| 0 <= m < prev.len() && prev[m] == r[k];
                assert(list[m] == r[k]);
            } else {
                assert(list[list.len() - 1] == item);
            }
        }
        assert forall|k: int|
            0 <= k < list.len() && !has_addr(to, (#[trigger] list[k]).address@) implies has_addr(
            not_in(list, to),
            list[k].address@,
        ) by {
            if k < prev.len() {
                assert(prev[k] == list[k]);
                let j = choose|j: int|
                    0 <= j < r.len() && same_address(#[trigger] r[j].address@, prev[k].address@);
                assert(not_in(list, to)[j] == r[j]);
            } else {
                assert(not_in(list, to)[r.len() as int] == item);
            }
        }
        if distinct_addrs(list) {
            assert forall|i: int, j: int| 0 <= i < prev.len() && 0 <= j < prev.len() && i < j implies !same_address(
                #[trigger] prev[i].address@,
                #[trigger] prev[j].address@,
            ) by {
                assert(prev[i] == list[i] && prev[j] == list[j]);
            }
            if !has_addr(to, item.address@) {
                let out = not_in(list, to);
                assert forall|i: int, j: int| 0 <= i < j < out.len() implies !same_address(
                    #[trigger] out[i].address@,
                    #[trigger] out[j].address@,
                ) by {
                    if j == r.len() {
                        assert(out[i] == r[i]);
                        let m = choose|m: int| 0 <= m < prev.len() && prev[m] == r[i];
                        assert(list[m] == r[i]);
                        assert(list[list.len() - 1] == item);
                    } else {
                        assert(out[i] == r[i] && out[j] == r[j]);
                    }
                }
            }
        }
    }
}

/// Reply-all drops nobody else: every sender, To and Cc address of the
/// original that is not the signed-in mailbox lands in the reply's To or Cc.
pub proof fn law_reply_all_keeps_everyone_else(ctx: ReplyContext, self_addr: Seq<char>)
    ensures
        ({
            let everyone = originator(ctx) + ctx.to@ + ctx.cc@;
            let (to, cc) = reply_recipients_of(ctx, self_addr, ComposeMode::ReplyAll);
            forall|k: int|
                0 <= k < everyone.len() && (#[trigger] everyone[k]).address@.len() > 0
                    && !same_address(everyone[k].address@, self_addr) ==> has_addr(
                    to,
                    everyone[k].address@,
                ) || has_addr(cc, everyone[k].address@)
        }),
{
    let head = originator(ctx) + ctx.to@;
    let everyone = head + ctx.cc@;
    let to0 = deduped(head, Some(self_addr));
    let (to, cc) = reply_recipients_of(ctx, self_addr, ComposeMode::ReplyAll);
    let ccd = deduped(ctx.cc@, Some(self_addr));
    lemma_deduped(head, Some(self_addr));
    lemma_deduped(ctx.cc@, Some(self_addr));
    lemma_not_in(ccd, to);
    assert forall|k: int|
        0 <= k < everyone.len() && (#[trigger] everyone[k]).address@.len() > 0 && !same_address(
            everyone[k].address@,
            self_addr,
        ) implies has_addr(to, everyone[k].address@) || has_addr(cc, everyone[k].address@) by {
        let a = everyone[k].address@;
        if k < head.len() {
            assert(head[k] == everyone[k]);
            assert(has_addr(to0, a));
            assert(to0.len() > 0);
        } else {
            assert(ctx.cc@[k - head.len()] == everyone[k]);
            assert(has_addr(ccd, a));
            let j = choose|j: int| 0 <= j < ccd.len() && same_address(#[trigger] ccd[j].address@, a);
            if !has_addr(to, ccd[j].address@) {
                let m = choose|m: int| 0 <= m < cc.len() && same_address(#[trigger] cc[m].address@, ccd[j].address@);
                assert(same_address(cc[m].address@, a));
            } else {
                let m = choose|m: int| 0 <= m < to.len() && same_address(#[trigger] to[m].address@, ccd[j].address@);
                assert(same_address(to[m].address@, a));
            }
        }
    }
}

/// Reply-all excludes the signed-in mailbox: never in Cc, and never in To
/// unless no sender or To address of the original is anyone else (replying
/// to your own sent mail, where the original To is kept).
pub proof fn law_reply_all_excludes_self(ctx: ReplyContext, self_addr: Seq<char>)
    ensures
        ({
            let head = originator(ctx) + ctx.to@;
            let (to, cc) = reply_recipients_of(ctx, self_addr, ComposeMode::ReplyAll);
            &&& !has_addr(cc, self_addr)
            &&& (exists|k: int|
                0 <= k < head.len() && (#[trigger] head[k]).address@.len() > 0 && !same_address(
                    head[k].address@,
                    self_addr,
                )) ==> !has_addr(to, self_addr)
        }),
{
    let head = originator(ctx) + ctx.to@;
    let to0 = deduped(head, Some(self_addr));
    let (to, cc) = reply_recipients_of(ctx, self_addr, ComposeMode::ReplyAll);
    let ccd = deduped(ctx.cc@, Some(self_addr));
    lemma_deduped(head, Some(self_addr));
    lemma_deduped(ctx.cc@, Some(self_addr));
    lemma_not_in(ccd, to);
    if has_addr(cc, self_addr) {
        let m = choose|m: int| 0 <= m < cc.len() && same_address(#[trigger] cc[m].address@, self_addr);
        let n = choose|n: int| 0 <= n < ccd.len() && ccd[n] == cc[m];
        assert(excluded(ccd[n].address@, Some(self_addr)));
    }
    if exists|k: int|
        0 <= k < head.len() && (#[trigger] head[k]).address@.len() > 0 && !same_address(
            head[k].address@,
            self_addr,
        ) {
        let k = choose|k: int|
            0 <= k < head.len() && (#[trigger] head[k]).address@.len() > 0 && !same_address(
                head[k].address@,
                self_addr,
            );
        assert(has_addr(to0, head[k].address@));
        if has_addr(to, self_addr) {
            let m = choose|m: int| 0 <= m < to.len() && same_address(#[trigger] to[m].address@, self_addr);
            assert(excluded(to0[m].address@, Some(self_addr)));
        }
    }
}

/// No mailbox appears twice across a reply's To and Cc lists, whatever the
/// mode.
pub proof fn law_reply_recipients_distinct(ctx: ReplyContext, self_addr: Seq<char>, mode: ComposeMode)
    ensures
        ({
            let (to, cc) = reply_recipients_of(ctx, self_addr, mode);
            distinct_addrs(to) && distinct_addrs(cc) && forall|m: int|
                0 <= m < cc.len() ==> !has_addr(to, (#[trigger] cc[m]).address@)
        }),
{
    let (to, cc) = reply_recipients_of(ctx, self_addr, mode);
    lemma_deduped(originator(ctx), Some(self_addr));
    lemma_deduped(originator(ctx) + ctx.to@, Some(self_addr));
    lemma_deduped(ctx.to@, None);
    lemma_deduped(ctx.cc@, Some(self_addr));
    lemma_not_in(deduped(ctx.cc@, Some(self_addr)), to);
}

} // verus!
verus! {

// ---------------------------------------------------------------------------
// Quoting
// ---------------------------------------------------------------------------

/// HTML escaping of one character.
pub open spec fn escaped_char(c: char) -> Seq<char> {
    if c == '&' {
        "&amp;"@
    } else if c == '<' {
        "&lt;"@
    } else if c == '>' {
        "&gt;"@
    } else if c == '"' {
        "&quot;"@
    } else {
        seq![c]
    }
}

/// Text with `&`, `<`, `>` and `"` escaped for HTML.
pub open spec fn escaped(s: Seq<char>) -> Seq<char>
    decreases s.len(),
{
    if s.len() == 0 {
        Seq::empty()
    } else {
        escaped(s.drop_last()) + escaped_char(s.last())
    }
}

fn escape_html(s: &[char]) -> (r: Vec<char>)
    ensures
        r@ == escaped(s@),
{
    let mut r: Vec<char> = Vec::new();
    let mut i: usize = 0;
    while i < s.len()
        invariant
            i <= s@.len(),
            r@ == escaped(s@.take(i as int)),
        decreases s@.len() - i,
    {
        let c = s[i];
        let piece: Vec<char> = if c == '&' {
            chars_of("&amp;")
        } else if c == '<' {
            chars_of("&lt;")
        } else if c == '>' {
            chars_of("&gt;")
        } else if c == '"' {
            chars_of("&quot;")
        } else {
            let mut v: Vec<char> = Vec::new();
            v.push(c);
            assert(v@ =~= seq![c]);
            v
        };
        append_chars(&mut r, piece.as_slice());
        i = i + 1;
        assert(s@.take(i as int).drop_last() =~= s@.take(i - 1));
    }
    assert(s@.take(s@.len() as int) =~= s@);
    r
}

/// The date shown in an attribution line.
pub open spec fn attribution_date(received_at: int) -> Seq<char> {
    match crate::dates::formatted_utc(received_at, crate::dates::ATTRIBUTION_FORMAT@) {
        Some(d) => d,
        None => "an earlier date"@,
    }
}

/// `Name <address>`, or the bare address when there is no name.
pub open spec fn sender_label(name: Seq<char>, address: Seq<char>) -> Seq<char> {
    if name.len() == 0 {
        address
    } else {
        name + " <"@ + address + ">"@
    }
}

/// "On <date>, <sender> wrote:" with the sender escaped for HTML.
pub open spec fn attribution_of(name: Seq<char>, address: Seq<char>, received_at: int) -> Seq<char> {
    "On "@ + attribution_date(received_at) + ", "@ + escaped(sender_label(name, address)) + " wrote:"@
}

fn date_text(received_at: i64) -> (r: Vec<char>)
    ensures
        r@ == attribution_date(received_at as int),
{
    match crate::dates::format_utc(received_at, crate::dates::ATTRIBUTION_FORMAT) {
        Some(d) => chars_of(d.as_str()),
        None => chars_of("an earlier date"),
    }
}

fn sender_label_exec(name: &str, address: &str) -> (r: Vec<char>)
    ensures
        r@ == sender_label(name@, address@),
{
    if name.is_empty() {
        chars_of(address)
    } else {
        let mut r = chars_of(name);
        append_chars(&mut r, chars_of(" <").as_slice());
        append_chars(&mut r, chars_of(address).as_slice());
        append_chars(&mut r, chars_of(">").as_slice());
        r
    }
}

fn attribution(from_name: &str, from_address: &str, received_at: i64) -> (r: Vec<char>)
    ensures
        r@ == attribution_of(from_name@, from_address@, received_at as int),
{
    let mut r = chars_of("On ");
    append_chars(&mut r, date_text(received_at).as_slice());
    append_chars(&mut r, chars_of(", ").as_slice());
    let who = sender_label_exec(from_name, from_address);
    append_chars(&mut r, escape_html(who.as_slice()).as_slice());
    append_chars(&mut r, chars_of(" wrote:").as_slice());
    r
}

/// The quoted-HTML block of a reply or forward.
pub open spec fn quoted_html(body_html: Seq<char>, name: Seq<char>, address: Seq<char>, received_at: int) -> Seq<char> {
    "<p>"@ + attribution_of(name, address, received_at) + "</p><blockquote>"@
        + crate::sanitize::sanitized(body_html) + "</blockquote>"@
}

/// Quoted HTML for reply/forward. The original body is re-sanitized here:
/// quoted content is attacker-controlled and gets no pass for being a quote.
pub fn quote_html(body_html: &str, from_name: &str, from_address: &str, received_at: i64) -> (r: String)
    ensures
        r@ == quoted_html(body_html@, from_name@, from_address@, received_at as int),
{
    let mut r = chars_of("<p>");
    append_chars(&mut r, attribution(from_name, from_address, received_at).as_slice());
    append_chars(&mut r, chars_of("</p><blockquote>").as_slice());
    let clean = crate::sanitize::sanitize_html(body_html);
    append_chars(&mut r, chars_of(clean.as_str()).as_slice());
    append_chars(&mut r, chars_of("</blockquote>").as_slice());
    string_of(r.as_slice())
}

/// Each line as `> line` followed by a newline.
pub open spec fn quoted_lines(ls: Seq<Seq<char>>) -> Seq<char>
    decreases ls.len(),
{
    if ls.len() == 0 {
        Seq::empty()
    } else {
        quoted_lines(ls.drop_last()) + "> "@ + ls.last() + "\n"@
    }
}

/// The quoted plain text of a reply or forward.
pub open spec fn quoted_text(body_text: Seq<char>, name: Seq<char>, address: Seq<char>, received_at: int) -> Seq<char> {
    "On "@ + attribution_date(received_at) + ", "@ + sender_label(name, address) + " wrote:\n"@
        + quoted_lines(crate::text::lines(body_text))
}

/// Quoted plain text: attribution and `> `-prefixed lines.
pub fn quote_text(body_text: &str, from_name: &str, from_address: &str, received_at: i64) -> (r: String)
    ensures
        r@ == quoted_text(body_text@, from_name@, from_address@, received_at as int),
{
    let mut r = chars_of("On ");
    append_chars(&mut r, date_text(received_at).as_slice());
    append_chars(&mut r, chars_of(", ").as_slice());
    append_chars(&mut r, sender_label_exec(from_name, from_address).as_slice());
    append_chars(&mut r, chars_of(" wrote:\n").as_slice());
    let ghost head = r@;
    let body = chars_of(body_text);
    let ls = crate::text::split_lines(body.as_slice());
    let mut i: usize = 0;
    while i < ls.len()
        invariant
            i <= ls@.len(),
            r@ == head + quoted_lines(views(ls@).take(i as int)),
        decreases ls@.len() - i,
    {
        append_chars(&mut r, chars_of("> ").as_slice());
        append_chars(&mut r, ls[i].as_slice());
        append_chars(&mut r, chars_of("\n").as_slice());
        i = i + 1;
        proof {
            let t = views(ls@).take(i as int);
            assert(t.drop_last() =~= views(ls@).take(i - 1));
            assert(t.last() == ls@[i - 1]@);
        }
    }
    assert(views(ls@).take(ls@.len() as int) =~= views(ls@));
    string_of(r.as_slice())
}

} // verus!
verus! {

// ---------------------------------------------------------------------------
// Attachments and MIME
// ---------------------------------------------------------------------------

#[verifier::external_type_specification]
#[verifier::external_body]
pub struct ExDecodeError(base64::DecodeError);

/// The bytes that standard-alphabet, padded base64 (`base64`'s `STANDARD`
/// engine) decodes from a text, or `None` where it rejects the text.
pub uninterp spec fn base64_decoded(text: Seq<char>) -> Option<Seq<u8>>;

/// `base64::engine::general_purpose::STANDARD.decode(text.as_bytes())`; the
/// outcome is `base64_decoded` of the text. What the decoder accepts is not
/// restated.
#[verifier::external_body]
fn decode_base64(text: &str) -> (r: Result<Vec<u8>, base64::DecodeError>)
    ensures
        match r {
            Ok(v) => base64_decoded(text@) == Some(v@),
            Err(_) => base64_decoded(text@) is None,
        },
{
    base64::engine::general_purpose::STANDARD.decode(text.as_bytes())
}

/// A digit of the standard base64 alphabet (`A`-`Z`, `a`-`z`, `0`-`9`, `+`,
/// `/`).
pub open spec fn base64_digit(v: int) -> char {
    if v < 26 {
        (65 + v) as char
    } else if v < 52 {
        (97 + v - 26) as char
    } else if v < 62 {
        (48 + v - 52) as char
    } else if v == 62 {
        '+'
    } else {
        '/'
    }
}

/// The standard-alphabet, padded base64 text of some bytes: every three
/// bytes become four digits of six bits each; a final group of one or two
/// bytes is padded with `=` to four characters.
pub open spec fn base64_encoded(b: Seq<u8>) -> Seq<char>
    decreases b.len(),
{
    if b.len() == 0 {
        Seq::empty()
    } else if b.len() == 1 {
        seq![base64_digit(b[0] as int / 4), base64_digit((b[0] % 4) * 16), '=', '=']
    } else if b.len() == 2 {
        seq![
            base64_digit(b[0] as int / 4),
            base64_digit((b[0] % 4) * 16 + b[1] / 16),
            base64_digit((b[1] % 16) * 4),
            '=',
        ]
    } else {
        seq![
            base64_digit(b[0] as int / 4),
            base64_digit((b[0] % 4) * 16 + b[1] / 16),
            base64_digit((b[1] % 16) * 4 + b[2] / 64),
            base64_digit(b[2] as int % 64),
        ] + base64_encoded(b.skip(3))
    }
}

/// `base64::engine::general_purpose::STANDARD.encode(bytes)`: standard,
/// padded base64 of the bytes, four characters per started group of three.
/// The encoder panics when that length overflows `usize`, which `requires`
/// rules out.
#[verifier::external_body]
fn encode_base64(bytes: &[u8]) -> (r: String)
    requires
        4 * ((bytes@.len() + 2) / 3) <= usize::MAX,
    ensures
        r@ == base64_encoded(bytes@),
        r@.len() == 4 * ((bytes@.len() + 2) / 3),
{
    base64::engine::general_purpose::STANDARD.encode(bytes)
}

/// The `sendMail` request body for a complete MIME message: the message as
/// base64 text.
pub fn sendmail_body(mime: &[u8]) -> (r: String)
    requires
        4 * ((mime@.len() + 2) / 3) <= usize::MAX,
    ensures
        r@ == base64_encoded(mime@),
{
    encode_base64(mime)
}

/// The attachments decoded in order, or the index of the first one whose
/// content is not valid base64.
pub open spec fn decode_all(atts: Seq<DraftAttachment>) -> Result<Seq<Seq<u8>>, int>
    decreases atts.len(),
{
    if atts.len() == 0 {
        Ok(Seq::empty())
    } else {
        match decode_all(atts.drop_last()) {
            Err(k) => Err(k),
            Ok(v) => match base64_decoded(atts.last().content_base64@) {
                Some(b) => Ok(v.push(b)),
                None => Err(atts.len() - 1),
            },
        }
    }
}

/// Total length of some byte strings.
pub open spec fn total_len(v: Seq<Seq<u8>>) -> nat
    decreases v.len(),
{
    if v.len() == 0 {
        0
    } else {
        total_len(v.drop_last()) + v.last().len()
    }
}

pub open spec fn byte_views(v: Seq<Vec<u8>>) -> Seq<Seq<u8>> {
    v.map_values(|b: Vec<u8>| b@)
}

/// The attachment check: the first undecodable attachment is an error
/// naming it; otherwise more than [`MAX_ATTACHMENT_TOTAL_BYTES`] in total is
/// an error carrying the total (capped at `usize::MAX`); otherwise the
/// decoded bytes, in order.
pub open spec fn attachments_checked(atts: Seq<DraftAttachment>, r: Result<Vec<Vec<u8>>, ComposeError>) -> bool {
    match decode_all(atts) {
        Err(k) => r == Err::<Vec<Vec<u8>>, ComposeError>(ComposeError::BadAttachment { name: atts[k].name }),
        Ok(v) => if total_len(v) > MAX_ATTACHMENT_TOTAL_BYTES {
            r == Err::<Vec<Vec<u8>>, ComposeError>(
                ComposeError::AttachmentsTooLarge {
                    total: if total_len(v) > usize::MAX {
                        usize::MAX
                    } else {
                        total_len(v) as usize
                    },
                    max: MAX_ATTACHMENT_TOTAL_BYTES,
                },
            )
        } else {
            r matches Ok(d) && byte_views(d@) == v
        },
    }
}

/// Decode and size-check attachments. Returns the raw bytes of each.
pub fn validate_attachments(attachments: &[DraftAttachment]) -> (r: Result<Vec<Vec<u8>>, ComposeError>)
    ensures
        attachments_checked(attachments@, r),
{
    let mut decoded: Vec<Vec<u8>> = Vec::new();
    let mut total: usize = 0;
    let mut i: usize = 0;
    assert(byte_views(decoded@) =~= Seq::<Seq<u8>>::empty());
    assert(attachments@.take(0) =~= Seq::<DraftAttachment>::empty());
    while i < attachments.len()
        invariant
            i <= attachments@.len(),
            decode_all(attachments@.take(i as int)) == Ok::<Seq<Seq<u8>>, int>(byte_views(decoded@)),
            total == if total_len(byte_views(decoded@)) > usize::MAX {
                usize::MAX as nat
            } else {
                total_len(byte_views(decoded@))
            },
        decreases attachments@.len() - i,
    {
        let att = &attachments[i];
        proof {
            assert(attachments@.take(i + 1).drop_last() =~= attachments@.take(i as int));
            assert(attachments@.take(i + 1).last() == *att);
        }
        match decode_base64(att.content_base64.as_str()) {
            Ok(bytes) => {
                let ghost before = byte_views(decoded@);
                total = total.saturating_add(bytes.len());
                decoded.push(bytes);
                proof {
                    assert(byte_views(decoded@) =~= before.push(bytes@));
                    assert(byte_views(decoded@).drop_last() =~= before);
                }
            },
            Err(_) => {
                proof {
                    lemma_decode_all_err_stays(attachments@, i + 1, i as int);
                }
                return Err(ComposeError::BadAttachment { name: att.name.clone() });
            },
        }
        i = i + 1;
    }
    assert(attachments@.take(attachments@.len() as int) =~= attachments@);
    if total > MAX_ATTACHMENT_TOTAL_BYTES {
        return Err(ComposeError::AttachmentsTooLarge { total, max: MAX_ATTACHMENT_TOTAL_BYTES });
    }
    Ok(decoded)
}

proof fn lemma_decode_all_err_stays(atts: Seq<DraftAttachment>, i: int, k: int)
    requires
        0 < i <= atts.len(),
        decode_all(atts.take(i)) == Err::<Seq<Seq<u8>>, int>(k),
    ensures
        decode_all(atts) == Err::<Seq<Seq<u8>>, int>(k),
    decreases atts.len() - i,
{
    if i < atts.len() {
        assert(atts.take(i + 1).drop_last() =~= atts.take(i));
        lemma_decode_all_err_stays(atts, i + 1, k);
    } else {
        assert(atts.take(i) =~= atts);
    }
}

/// One attachment as the message carries it.
pub struct MimePart {
    pub content_type: String,
    pub name: String,
    pub bytes: Vec<u8>,
}

/// Everything an outgoing message is written from, as plain values. A
/// header that is `None` is not written. Addresses are (name, address).
pub struct MimeSpec {
    pub from: (String, String),
    pub subject: String,
    pub to: Option<Vec<(String, String)>>,
    pub cc: Option<Vec<(String, String)>>,
    pub bcc: Option<Vec<(String, String)>>,
    /// A normalized message-id.
    pub in_reply_to: Option<String>,
    /// Normalized message-ids, oldest first.
    pub references: Option<Vec<String>>,
    /// Exactly one of the two bodies is set.
    pub html_body: Option<String>,
    pub text_body: Option<String>,
    pub attachments: Vec<MimePart>,
}

pub open spec fn name_addr_views(v: Seq<(String, String)>) -> Seq<(Seq<char>, Seq<char>)> {
    v.map_values(|p: (String, String)| (p.0@, p.1@))
}

/// The (name, address) pairs of a recipient list.
pub open spec fn name_addr_pairs(list: Seq<EmailAddress>) -> Seq<(Seq<char>, Seq<char>)> {
    list.map_values(|a: EmailAddress| (a.name@, a.address@))
}

/// A recipient header: absent for an empty list, else the list's pairs.
pub open spec fn header_list_ok(field: Option<Vec<(String, String)>>, list: Seq<EmailAddress>) -> bool {
    if list.len() == 0 {
        field is None
    } else {
        field matches Some(l) && name_addr_views(l@) == name_addr_pairs(list)
    }
}

/// The In-Reply-To id: the normalized id, unless normalizing leaves nothing.
pub open spec fn in_reply_to_of(irt: Option<String>) -> Option<Seq<char>> {
    match irt {
        Some(x) => if normalized_msgid(x@).len() > 0 {
            Some(normalized_msgid(x@))
        } else {
            None
        },
        None => None,
    }
}

pub open spec fn opt_string_view(o: Option<String>) -> Option<Seq<char>> {
    match o {
        Some(s) => Some(s@),
        None => None,
    }
}

/// The attachments paired, in order, with their decoded bytes.
pub open spec fn parts_ok(parts: Seq<MimePart>, atts: Seq<DraftAttachment>, decoded: Seq<Seq<u8>>) -> bool {
    &&& parts.len() == if atts.len() < decoded.len() {
        atts.len()
    } else {
        decoded.len()
    }
    &&& forall|i: int|
        0 <= i < parts.len() ==> (#[trigger] parts[i]).content_type@ == atts[i].content_type@ && parts[i].name@
            == atts[i].name@ && parts[i].bytes@ == decoded[i]
}

/// What the message of `draft`, sent from `from`, is written from, with
/// `decoded` the attachments' bytes: From; Subject; To, Cc and Bcc each when
/// not empty; In-Reply-To and References from the normalized ids; the body
/// as HTML exactly when the content type is "html", else as text; and each
/// attachment with its bytes.
pub open spec fn mime_spec_ok(s: MimeSpec, draft: Draft, from: EmailAddress, decoded: Seq<Seq<u8>>) -> bool {
    &&& s.from.0@ == from.name@ && s.from.1@ == from.address@
    &&& s.subject@ == draft.subject@
    &&& header_list_ok(s.to, draft.to@)
    &&& header_list_ok(s.cc, draft.cc@)
    &&& header_list_ok(s.bcc, draft.bcc@)
    &&& opt_string_view(s.in_reply_to) == in_reply_to_of(draft.in_reply_to)
    &&& if draft.references@.len() == 0 {
        s.references is None
    } else {
        s.references matches Some(l) && strings(l@) == strings(draft.references@).map_values(
            |r: Seq<char>| normalized_msgid(r),
        )
    }
    &&& if draft.content_type@ == "html"@ {
        s.text_body is None && (s.html_body matches Some(b) && b@ == draft.body@)
    } else {
        s.html_body is None && (s.text_body matches Some(b) && b@ == draft.body@)
    }
    &&& parts_ok(s.attachments@, draft.attachments@, decoded)
}

fn header_list(list: &Vec<EmailAddress>) -> (r: Option<Vec<(String, String)>>)
    ensures
        header_list_ok(r, list@),
{
    if list.len() == 0 {
        return None;
    }
    let mut v: Vec<(String, String)> = Vec::new();
    let mut i: usize = 0;
    while i < list.len()
        invariant
            i <= list@.len(),
            name_addr_views(v@) == name_addr_pairs(list@.take(i as int)),
        decreases list@.len() - i,
    {
        let ghost prev = v@;
        let n = list[i].name.clone();
        let a = list[i].address.clone();
        v.push((n, a));
        i = i + 1;
        assert(name_addr_views(v@) =~= name_addr_views(prev).push((n@, a@)));
        assert(name_addr_pairs(list@.take(i as int)) =~= name_addr_pairs(list@.take(i - 1)).push(
            (list@[i - 1].name@, list@[i - 1].address@),
        ));
    }
    assert(list@.take(list@.len() as int) =~= list@);
    Some(v)
}

fn normalized_refs(refs: &Vec<String>) -> (r: Vec<String>)
    ensures
        strings(r@) == strings(refs@).map_values(|x: Seq<char>| normalized_msgid(x)),
{
    let mut v: Vec<String> = Vec::new();
    let mut i: usize = 0;
    while i < refs.len()
        invariant
            i <= refs@.len(),
            strings(v@) == strings(refs@.take(i as int)).map_values(|x: Seq<char>| normalized_msgid(x)),
        decreases refs@.len() - i,
    {
        let ghost prev = v@;
        let n = normalize_msgid(refs[i].as_str());
        v.push(n);
        i = i + 1;
        assert(strings(v@) =~= strings(prev).push(n@));
        assert(strings(refs@.take(i as int)).map_values(|x: Seq<char>| normalized_msgid(x)) =~= strings(
            refs@.take(i - 1),
        ).map_values(|x: Seq<char>| normalized_msgid(x)).push(normalized_msgid(refs@[i - 1]@)));
    }
    assert(refs@.take(refs@.len() as int) =~= refs@);
    v
}

/// What the message of `draft`, sent from `from`, is written from;
/// attachment `i` carries `decoded[i]`.
pub fn mime_spec(draft: &Draft, from: &EmailAddress, decoded: Vec<Vec<u8>>) -> (s: MimeSpec)
    ensures
        mime_spec_ok(s, *draft, *from, byte_views(decoded@)),
{
    let in_reply_to = match &draft.in_reply_to {
        Some(irt) => {
            let n = normalize_msgid(irt.as_str());
            if n.as_str().is_empty() {
                None
            } else {
                Some(n)
            }
        },
        None => None,
    };
    let references = if draft.references.len() == 0 {
        None
    } else {
        Some(normalized_refs(&draft.references))
    };
    let html = crate::text::str_eq(draft.content_type.as_str(), "html");
    let (html_body, text_body) = if html {
        (Some(draft.body.clone()), None)
    } else {
        (None, Some(draft.body.clone()))
    };
    let ghost d0 = decoded@;
    let ghost dv = byte_views(decoded@);
    let mut attachments: Vec<MimePart> = Vec::new();
    let mut rest = decoded;
    let n: usize = if draft.attachments.len() < rest.len() {
        draft.attachments.len()
    } else {
        rest.len()
    };
    let mut i: usize = 0;
    while i < n
        invariant
            n <= draft.attachments@.len(),
            n <= d0.len(),
            dv == byte_views(d0),
            i <= n,
            rest@ == d0.skip(i as int),
            attachments@.len() == i,
            forall|j: int|
                0 <= j < i ==> (#[trigger] attachments@[j]).content_type@ == draft.attachments@[j].content_type@
                    && attachments@[j].name@ == draft.attachments@[j].name@ && attachments@[j].bytes@ == dv[j],
        decreases n - i,
    {
        let bytes = rest.remove(0);
        assert(bytes == d0[i as int]);
        assert(rest@ =~= d0.skip(i + 1));
        let att = &draft.attachments[i];
        attachments.push(MimePart { content_type: att.content_type.clone(), name: att.name.clone(), bytes });
        i = i + 1;
    }
    MimeSpec {
        from: (from.name.clone(), from.address.clone()),
        subject: draft.subject.clone(),
        to: header_list(&draft.to),
        cc: header_list(&draft.cc),
        bcc: header_list(&draft.bcc),
        in_reply_to,
        references,
        html_body,
        text_body,
        attachments,
    }
}

/// Write the message with `mail_builder`: `MessageBuilder::new()` with
/// `from`, `subject`, `to`/`cc`/`bcc`, `in_reply_to` and `references` for
/// each field that is set, `html_body`/`text_body`, one `attachment(..)`
/// per part in order, then `write_to_vec()`. Its source always returns `Ok`
/// and always writes at least a Message-ID, a Date and a MIME-Version
/// header, so the bytes are never empty; they carry a generated Message-ID
/// and the current date, so nothing more is stated of them.
#[verifier::external_body]
fn render_mime(s: MimeSpec) -> (v: Vec<u8>)
    ensures
        v@.len() > 0,
{
    let mut b = MessageBuilder::new().from(s.from).subject(s.subject);
    if let Some(l) = s.to { b = b.to(l) }
    if let Some(l) = s.cc { b = b.cc(l) }
    if let Some(l) = s.bcc { b = b.bcc(l) }
    if let Some(id) = s.in_reply_to { b = b.in_reply_to(id) }
    if let Some(ids) = s.references { b = b.references(ids) }
    if let Some(t) = s.html_body { b = b.html_body(t) }
    if let Some(t) = s.text_body { b = b.text_body(t) }
    for p in s.attachments { b = b.attachment(p.content_type, p.name, p.bytes) }
    b.write_to_vec().unwrap_or_default()
}

/// When building the message succeeds: recipients are present and every
/// attachment decodes within the size budget.
pub open spec fn mime_buildable(draft: Draft) -> bool {
    &&& (draft.to@.len() > 0 || draft.cc@.len() > 0 || draft.bcc@.len() > 0)
    &&& decode_all(draft.attachments@) matches Ok(v)
    &&& total_len(v) <= MAX_ATTACHMENT_TOTAL_BYTES
}

/// Build the complete RFC 5322 message: the draft's [`mime_spec`], written
/// by [`render_mime`]. Output goes to Graph `sendMail` as base64 MIME.
pub fn build_mime(draft: &Draft, from: &EmailAddress) -> (r: Result<Vec<u8>, ComposeError>)
    ensures
        draft.to@.len() == 0 && draft.cc@.len() == 0 && draft.bcc@.len() == 0 ==> r
            == Err::<Vec<u8>, ComposeError>(ComposeError::NoRecipients),
        !(draft.to@.len() == 0 && draft.cc@.len() == 0 && draft.bcc@.len() == 0) ==> match r {
            Ok(v) => mime_buildable(*draft) && v@.len() > 0,
            Err(e) => exists|d: Result<Vec<Vec<u8>>, ComposeError>|
                attachments_checked(draft.attachments@, d) && d == Err::<Vec<Vec<u8>>, ComposeError>(e),
        },
        r is Ok <==> mime_buildable(*draft),
{
    if draft.to.len() == 0 && draft.cc.len() == 0 && draft.bcc.len() == 0 {
        return Err(ComposeError::NoRecipients);
    }
    let attachment_bytes = match validate_attachments(draft.attachments.as_slice()) {
        Ok(v) => v,
        Err(e) => {
            return Err(e);
        },
    };
    let spec = mime_spec(draft, from, attachment_bytes);
    Ok(render_mime(spec))
}

} // verus!
verus! {

/// How Rust's `Debug` writes a string: quoted, with escapes.
pub uninterp spec fn debug_quoted(s: Seq<char>) -> Seq<char>;

/// `format!("{:?}", s)`, std's `Debug` rendering of a string; the result is
/// `debug_quoted` of it.
#[verifier::external_body]
fn debug_string(s: &str) -> (r: String)
    ensures
        r@ == debug_quoted(s@),
{
    format!("{:?}", s)
}

/// The user-facing text of each error.
pub open spec fn compose_error_text(e: ComposeError) -> Seq<char> {
    match e {
        ComposeError::NoRecipients => "add at least one recipient"@,
        ComposeError::AttachmentsTooLarge { total, max } => "attachments too large: "@
            + crate::text::decimal(total as nat) + " bytes exceeds the "@ + crate::text::decimal(
            max as nat,
        ) + "-byte inline limit \u{2014} larger uploads arrive with a later phase"@,
        ComposeError::BadAttachment { name } => "attachment "@ + debug_quoted(name@)
            + " is not valid base64"@,
        ComposeError::Mime(m) => "could not build the message: "@ + m@,
    }
}

impl ComposeError {
    /// The error's user-facing text.
    pub fn message(&self) -> (r: String)
        ensures
            r@ == compose_error_text(*self),
    {
        let mut r: Vec<char>;
        match self {
            ComposeError::NoRecipients => {
                r = chars_of("add at least one recipient");
            },
            ComposeError::AttachmentsTooLarge { total, max } => {
                r = chars_of("attachments too large: ");
                append_chars(&mut r, crate::text::decimal_chars(*total as u64).as_slice());
                append_chars(&mut r, chars_of(" bytes exceeds the ").as_slice());
                append_chars(&mut r, crate::text::decimal_chars(*max as u64).as_slice());
                append_chars(
                    &mut r,
                    chars_of("-byte inline limit \u{2014} larger uploads arrive with a later phase").as_slice(),
                );
            },
            ComposeError::BadAttachment { name } => {
                r = chars_of("attachment ");
                append_chars(&mut r, chars_of(debug_string(name.as_str()).as_str()).as_slice());
                append_chars(&mut r, chars_of(" is not valid base64").as_slice());
            },
            ComposeError::Mime(m) => {
                r = chars_of("could not build the message: ");
                append_chars(&mut r, chars_of(m.as_str()).as_slice());
            },
        }
        string_of(r.as_slice())
    }
}

} // verus!
verus! {

/// A subject prefix ending in ':' survives trimming.
proof fn lemma_prefix_kept_by_trim(o: Seq<char>, p: Seq<char>)
    requires
        has_subject_prefix(o, p),
        p.len() > 0,
        p.last() == ':',
    ensures
        has_subject_prefix(trim(o), p),
{
    let t = trim_start(o);
    let u = trim(o);
    let n = p.len() as int;
    crate::text::lemma_trim_start_shape(o);
    crate::text::lemma_trim_end_shape(t);
    assert(lower(t).take(n) == p);
    assert(lower(t)[n - 1] == ':');
    assert(crate::text::lower_char(t[n - 1]) == ':');
    assert(t[n - 1] == ':');
    assert(!crate::text::is_ws(t[n - 1]));
    assert(n - 1 < u.len());
    assert(u[0] == t[0]);
    assert(trim_start(u) == u);
    assert(lower(u).take(n) =~= lower(t).take(n));
}

/// `Re: ` is added at most once: replying to a reply subject changes
/// nothing.
pub proof fn law_reply_subject_idempotent(original: Seq<char>)
    requires
        trim(original).len() > 0,
    ensures
        reply_subject_of(reply_subject_of(original)) == reply_subject_of(original),
{
    let u = trim(original);
    crate::text::lemma_trim_idempotent(original);
    if has_subject_prefix(original, "re:"@) {
        reveal_strlit("re:");
        lemma_prefix_kept_by_trim(original, "re:"@);
    } else {
        let r = "Re: "@ + u;
        reveal_strlit("Re: ");
        reveal_strlit("re:");
        crate::text::lemma_trim_start_shape(original);
        crate::text::lemma_trim_end_shape(trim_start(original));
        assert(r[0] == 'R');
        assert(r.last() == u.last());
        crate::text::lemma_trim_noop(r);
        assert(trim_start(r) == r);
        assert(lower(r).take(3) =~= "re:"@);
        assert(has_subject_prefix(r, "re:"@));
    }
}

/// `Fw: ` is added at most once: forwarding a forward subject changes
/// nothing.
pub proof fn law_forward_subject_idempotent(original: Seq<char>)
    requires
        trim(original).len() > 0,
    ensures
        forward_subject_of(forward_subject_of(original)) == forward_subject_of(original),
{
    let u = trim(original);
    crate::text::lemma_trim_idempotent(original);
    reveal_strlit("fw:");
    reveal_strlit("fwd:");
    if has_subject_prefix(original, "fw:"@) {
        lemma_prefix_kept_by_trim(original, "fw:"@);
    } else if has_subject_prefix(original, "fwd:"@) {
        lemma_prefix_kept_by_trim(original, "fwd:"@);
    } else {
        let r = "Fw: "@ + u;
        reveal_strlit("Fw: ");
        crate::text::lemma_trim_start_shape(original);
        crate::text::lemma_trim_end_shape(trim_start(original));
        assert(r[0] == 'F');
        assert(r.last() == u.last());
        crate::text::lemma_trim_noop(r);
        assert(trim_start(r) == r);
        assert(lower(r).take(3) =~= "fw:"@);
        assert(has_subject_prefix(r, "fw:"@));
    }
}

} // verus!
verus! {

/// Normalizing undoes wrapping in angle brackets and surrounding
/// whitespace, and leaves a bare id as it is: for an id that neither
/// starts nor ends with whitespace, `<` or `>`, and whitespace `before` and
/// `after`, `before + "<" + id + ">" + after` normalizes to `id`.
pub proof fn law_msgid_normalization_unwraps(id: Seq<char>, before: Seq<char>, after: Seq<char>)
    requires
        id.len() > 0,
        !crate::text::is_ws(id[0]) && id[0] != '<',
        !crate::text::is_ws(id.last()) && id.last() != '>',
        forall|i: int| 0 <= i < before.len() ==> crate::text::is_ws(#[trigger] before[i]),
        forall|i: int| 0 <= i < after.len() ==> crate::text::is_ws(#[trigger] after[i]),
    ensures
        normalized_msgid(before + seq!['<'] + id + seq!['>'] + after) == id,
        normalized_msgid(id) == id,
{
    let w = seq!['<'] + id + seq!['>'];
    let x = before + w + after;
    let y = w + after;
    assert(before + seq!['<'] + id + seq!['>'] + after =~= x);
    assert(x.skip(before.len() as int) =~= y);
    crate::text::lemma_trim_start_skip(x, before.len() as int);
    assert(trim_start(y) == y);
    assert(y.take(w.len() as int) =~= w);
    crate::text::lemma_trim_end_take(y, w.len() as int);
    assert(w.last() == '>');
    assert(crate::text::trim_end(w) == w);
    assert(trim(x) == w);
    assert(w[0] == '<');
    assert(w.drop_first().last() == '>');
    assert(w.drop_first().drop_last() =~= id);
    crate::text::lemma_trim_noop(id);
}

} // verus!
verus! {

proof fn lemma_nonempty_only_from(xs: Seq<Seq<char>>)
    ensures
        forall|i: int|
            0 <= i < nonempty_only(xs).len() ==> (#[trigger] nonempty_only(xs)[i]).len() > 0 && exists|k: int|
                0 <= k < xs.len() && xs[k] == nonempty_only(xs)[i],
    decreases xs.len(),
{
    if xs.len() > 0 {
        let p = xs.drop_last();
        lemma_nonempty_only_from(p);
        let r = nonempty_only(xs);
        assert forall|i: int| 0 <= i < r.len() implies (#[trigger] r[i]).len() > 0 && exists|k: int|
            0 <= k < xs.len() && xs[k] == r[i] by {
            if i < nonempty_only(p).len() {
                assert(r[i] == nonempty_only(p)[i]);
                let k = choose|k: int| 0 <= k < p.len() && p[k] == nonempty_only(p)[i];
                assert(xs[k] == p[k]);
            } else {
                assert(r[i] == xs.last());
                assert(xs[xs.len() - 1] == xs.last());
            }
        }
    }
}

proof fn lemma_nonempty_only_all(xs: Seq<Seq<char>>)
    requires
        forall|i: int| 0 <= i < xs.len() ==> (#[trigger] xs[i]).len() > 0,
    ensures
        nonempty_only(xs) == xs,
    decreases xs.len(),
{
    if xs.len() > 0 {
        let p = xs.drop_last();
        assert forall|i: int| 0 <= i < p.len() implies (#[trigger] p[i]).len() > 0 by {
            assert(p[i] == xs[i]);
        }
        lemma_nonempty_only_all(p);
        assert(xs[xs.len() - 1] == xs.last());
        assert(p.push(xs.last()) =~= xs);
    }
}

/// Normalizing a word without whitespace leaves none.
proof fn lemma_normalized_clean(w: Seq<char>)
    requires
        forall|j: int| 0 <= j < w.len() ==> !crate::text::is_ws(#[trigger] w[j]),
    ensures
        forall|j: int| 0 <= j < normalized_msgid(w).len() ==> !crate::text::is_ws(#[trigger] normalized_msgid(w)[j]),
{
    if w.len() > 0 {
        assert(w[w.len() - 1] == w.last());
        crate::text::lemma_trim_noop(w);
        let a = if w[0] == '<' {
            w.drop_first()
        } else {
            w
        };
        let n = normalized_msgid(w);
        assert forall|j: int| 0 <= j < n.len() implies !crate::text::is_ws(#[trigger] n[j]) by {
            if w[0] == '<' {
                assert(a[j] == w[j + 1]);
            } else {
                assert(a[j] == w[j]);
            }
            assert(n[j] == a[j]);
        }
    } else {
        assert(trim_start(w) == w);
        assert(crate::text::trim_end(w) == w);
    }
}

/// Whatever the header, every id parsed from it is non-empty and holds no
/// whitespace.
pub proof fn law_parsed_references_clean(header: Seq<char>)
    ensures
        forall|i: int|
            0 <= i < parsed_references(header).len() ==> (#[trigger] parsed_references(header)[i]).len() > 0,
        forall|i: int, j: int|
            0 <= i < parsed_references(header).len() && 0 <= j < parsed_references(header)[i].len()
                ==> !crate::text::is_ws(#[trigger] parsed_references(header)[i][j]),
{
    let ws = words(header);
    let ns = normalized_all(ws);
    crate::text::lemma_words_clean(header);
    lemma_nonempty_only_from(ns);
    assert forall|i: int, j: int|
        0 <= i < parsed_references(header).len() && 0 <= j < parsed_references(header)[i].len()
            implies !crate::text::is_ws(#[trigger] parsed_references(header)[i][j]) by {
        let k = choose|k: int| 0 <= k < ns.len() && ns[k] == parsed_references(header)[i];
        assert forall|m: int| 0 <= m < ws[k].len() implies !crate::text::is_ws(#[trigger] ws[k][m]) by {}
        lemma_normalized_clean(ws[k]);
    }
}

/// Ids wrapped in angle brackets and joined by spaces, as a `References`
/// header writes them, parse back to the same ids.
pub proof fn law_references_round_trip(ids: Seq<Seq<char>>)
    requires
        forall|i: int| 0 <= i < ids.len() ==> (#[trigger] ids[i]).len() > 0,
        forall|i: int, j: int|
            0 <= i < ids.len() && 0 <= j < ids[i].len() ==> !crate::text::is_ws(#[trigger] ids[i][j])
                && ids[i][j] != '<' && ids[i][j] != '>',
    ensures
        parsed_references(
            crate::text::join(ids.map_values(|i: Seq<char>| seq!['<'] + i + seq!['>']), seq![' ']),
        ) == ids,
{
    let wrapped = ids.map_values(|i: Seq<char>| seq!['<'] + i + seq!['>']);
    assert forall|i: int| 0 <= i < wrapped.len() implies (#[trigger] wrapped[i]).len() > 0 by {}
    assert forall|i: int, j: int| 0 <= i < wrapped.len() && 0 <= j < wrapped[i].len() implies !crate::text::is_ws(
        #[trigger] wrapped[i][j],
    ) by {
        if 0 < j < wrapped[i].len() - 1 {
            assert(wrapped[i][j] == ids[i][j - 1]);
        }
    }
    crate::text::lemma_words_of_join(wrapped);
    let ns = normalized_all(wrapped);
    assert forall|i: int| 0 <= i < ns.len() implies ns[i] == ids[i] by {
        let id = ids[i];
        assert(id[0] == ids[i][0]);
        assert(id.last() == ids[i][id.len() - 1]);
        law_msgid_normalization_unwraps(id, Seq::empty(), Seq::empty());
        assert(Seq::<char>::empty() + seq!['<'] + id + seq!['>'] + Seq::<char>::empty() =~= wrapped[i]);
    }
    assert(ns =~= ids);
    lemma_nonempty_only_all(ids);
}

} // verus!
verus! {

/// A plain reply goes to the original's sender side (Reply-To, else From),
/// never Cc, and never to the signed-in mailbox (compared without ASCII
/// case) while the sender side names anyone else, every one of whom it
/// keeps. When the sender side is only the signed-in mailbox (replying to
/// one's own sent mail), it goes to the original To list, deduplicated.
pub proof fn law_reply_addresses_the_other_side(ctx: ReplyContext, self_addr: Seq<char>)
    ensures
        ({
            let sender = originator(ctx);
            let (to, cc) = reply_recipients_of(ctx, self_addr, ComposeMode::Reply);
            &&& cc.len() == 0
            &&& (exists|k: int|
                0 <= k < sender.len() && (#[trigger] sender[k]).address@.len() > 0 && !same_address(
                    sender[k].address@,
                    self_addr,
                )) ==> {
                &&& !has_addr(to, self_addr)
                &&& forall|k: int|
                    0 <= k < sender.len() && (#[trigger] sender[k]).address@.len() > 0 && !same_address(
                        sender[k].address@,
                        self_addr,
                    ) ==> has_addr(to, sender[k].address@)
                &&& forall|m: int| 0 <= m < to.len() ==> sender.contains(#[trigger] to[m])
            }
            &&& (forall|k: int|
                0 <= k < sender.len() ==> (#[trigger] sender[k]).address@.len() == 0 || same_address(
                    sender[k].address@,
                    self_addr,
                )) ==> to == deduped(ctx.to@, None)
        }),
{
    let sender = originator(ctx);
    let d = deduped(sender, Some(self_addr));
    lemma_deduped(sender, Some(self_addr));
    if exists|k: int|
        0 <= k < sender.len() && (#[trigger] sender[k]).address@.len() > 0 && !same_address(
            sender[k].address@,
            self_addr,
        ) {
        let k = choose|k: int|
            0 <= k < sender.len() && (#[trigger] sender[k]).address@.len() > 0 && !same_address(
                sender[k].address@,
                self_addr,
            );
        assert(has_addr(d, sender[k].address@));
        assert(d.len() > 0);
        if has_addr(d, self_addr) {
            let m = choose|m: int| 0 <= m < d.len() && same_address(#[trigger] d[m].address@, self_addr);
            assert(excluded(d[m].address@, Some(self_addr)));
        }
    }
    if forall|k: int|
        0 <= k < sender.len() ==> (#[trigger] sender[k]).address@.len() == 0 || same_address(
            sender[k].address@,
            self_addr,
        ) {
        if d.len() > 0 {
            assert(sender.contains(d[0]));
            let k = choose|k: int| 0 <= k < sender.len() && sender[k] == d[0];
            assert(d[0].address@.len() > 0);
            assert(!excluded(d[0].address@, Some(self_addr)));
            assert(sender[k].address@.len() == 0 || same_address(sender[k].address@, self_addr));
        }
    }
}

} // verus!
verus! {

/// How long the quote of some lines is: each line plus `"> "` and a line
/// end.
pub open spec fn quoted_len(ls: Seq<Seq<char>>) -> nat
    decreases ls.len(),
{
    if ls.len() == 0 {
        0
    } else {
        quoted_len(ls.drop_last()) + ls.last().len() + 3
    }
}

proof fn lemma_quoted_lines_len(ls: Seq<Seq<char>>)
    ensures
        quoted_lines(ls).len() == quoted_len(ls),
    decreases ls.len(),
{
    reveal_strlit("> ");
    reveal_strlit("\n");
    if ls.len() > 0 {
        lemma_quoted_lines_len(ls.drop_last());
    }
}

proof fn lemma_quoted_lines_prefix(ls: Seq<Seq<char>>, j: int)
    requires
        0 <= j <= ls.len(),
    ensures
        quoted_lines(ls.take(j)).len() <= quoted_lines(ls).len(),
        quoted_lines(ls).subrange(0, quoted_lines(ls.take(j)).len() as int) == quoted_lines(ls.take(j)),
    decreases ls.len(),
{
    if j == ls.len() {
        assert(ls.take(j) =~= ls);
        assert(quoted_lines(ls).subrange(0, quoted_lines(ls).len() as int) =~= quoted_lines(ls));
    } else {
        let p = ls.drop_last();
        assert(p.take(j) =~= ls.take(j));
        lemma_quoted_lines_prefix(p, j);
        let a = quoted_lines(p);
        let q = quoted_lines(ls);
        assert(q == a + "> "@ + ls.last() + "\n"@);
        assert(q.subrange(0, quoted_lines(ls.take(j)).len() as int) =~= a.subrange(
            0,
            quoted_lines(ls.take(j)).len() as int,
        ));
    }
}

proof fn lemma_quoted_lines_shape(ls: Seq<Seq<char>>)
    ensures
        quoted_lines(ls).len() == quoted_len(ls),
        forall|k: int|
            0 <= k < ls.len() ==> quoted_lines(ls).subrange(
                quoted_len(ls.take(k)) as int,
                quoted_len(ls.take(k + 1)) as int,
            ) == "> "@ + #[trigger] ls[k] + "\n"@,
{
    lemma_quoted_lines_len(ls);
    assert forall|k: int| 0 <= k < ls.len() implies quoted_lines(ls).subrange(
        quoted_len(ls.take(k)) as int,
        quoted_len(ls.take(k + 1)) as int,
    ) == "> "@ + #[trigger] ls[k] + "\n"@ by {
        let t = ls.take(k + 1);
        assert(t.drop_last() =~= ls.take(k));
        assert(t.last() == ls[k]);
        let a = quoted_lines(ls.take(k));
        let b = quoted_lines(t);
        assert(b == a + "> "@ + ls[k] + "\n"@);
        lemma_quoted_lines_len(ls.take(k));
        lemma_quoted_lines_len(t);
        lemma_quoted_lines_prefix(ls, k + 1);
        assert(quoted_lines(ls).subrange(a.len() as int, b.len() as int) =~= b.subrange(a.len() as int, b.len() as int));
        assert(b.subrange(a.len() as int, b.len() as int) =~= "> "@ + ls[k] + "\n"@);
    }
}

/// A plain-text quote keeps every line of the body, in order, blank lines
/// included: after the attribution line, the `k`-th line of the body is
/// quoted as `"> "`, the line and a line end, at the offset the lines
/// before it take, and nothing else follows.
pub proof fn law_quote_keeps_every_line(body: Seq<char>, name: Seq<char>, address: Seq<char>, received_at: int)
    ensures
        ({
            let ls = crate::text::lines(body);
            let q = quoted_text(body, name, address, received_at);
            let n = quoted_len(ls);
            let tail = q.skip(q.len() - n);
            &&& q.len() >= n
            &&& forall|k: int|
                0 <= k < ls.len() ==> tail.subrange(quoted_len(ls.take(k)) as int, quoted_len(ls.take(k + 1)) as int)
                    == "> "@ + #[trigger] ls[k] + "\n"@
            &&& q.subrange(0, q.len() - n) == "On "@ + attribution_date(received_at) + ", "@ + sender_label(
                name,
                address,
            ) + " wrote:\n"@
        }),
{
    let ls = crate::text::lines(body);
    lemma_quoted_lines_shape(ls);
    let head = "On "@ + attribution_date(received_at) + ", "@ + sender_label(name, address) + " wrote:\n"@;
    let q = quoted_text(body, name, address, received_at);
    assert(q == head + quoted_lines(ls));
    assert(q.skip(head.len() as int) =~= quoted_lines(ls));
    assert(q.subrange(0, head.len() as int) =~= head);
}

} // verus!
verus! {

/// Escaped text holds no raw `<`, `>` or `"`, and text without `&`, `<`,
/// `>` and `"` escapes to itself: a sender's name in a quote attribution can
/// never open a tag, and an ordinary name is shown as it is.
pub proof fn law_escaping_neutralizes_markup(s: Seq<char>)
    ensures
        forall|i: int| 0 <= i < escaped(s).len() ==> #[trigger] escaped(s)[i] != '<' && escaped(s)[i] != '>'
            && escaped(s)[i] != '"',
        (forall|i: int| 0 <= i < s.len() ==> #[trigger] s[i] != '&' && s[i] != '<' && s[i] != '>' && s[i] != '"')
            ==> escaped(s) == s,
    decreases s.len(),
{
    reveal_strlit("&amp;");
    reveal_strlit("&lt;");
    reveal_strlit("&gt;");
    reveal_strlit("&quot;");
    if s.len() > 0 {
        let p = s.drop_last();
        law_escaping_neutralizes_markup(p);
        let e = escaped(p);
        let c = escaped_char(s.last());
        assert(escaped(s) == e + c);
        assert forall|i: int| 0 <= i < escaped(s).len() implies #[trigger] escaped(s)[i] != '<' && escaped(s)[i]
            != '>' && escaped(s)[i] != '"' by {
            if i < e.len() {
                assert(escaped(s)[i] == e[i]);
            } else {
                assert(escaped(s)[i] == c[i - e.len()]);
            }
        }
        if forall|i: int| 0 <= i < s.len() ==> #[trigger] s[i] != '&' && s[i] != '<' && s[i] != '>' && s[i] != '"' {
            assert forall|i: int| 0 <= i < p.len() implies #[trigger] p[i] != '&' && p[i] != '<' && p[i] != '>'
                && p[i] != '"' by {
                assert(p[i] == s[i]);
            }
            assert(s[s.len() - 1] == s.last());
            assert(e + c =~= s);
        }
    } else {
        assert(escaped(s) =~= s);
    }
}

} // verus!
