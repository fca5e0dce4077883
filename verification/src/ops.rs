//! Optimistic mail-management writes with rollback and reconciliation.
//!
//! Every write follows one pipeline: apply the change to the local store
//! first so the UI feels instant ([`begin_op`]), fire the Graph call (the
//! shell's awaited work), and settle ([`finish_op`]): on success reconcile
//! a move to the destination copy's new id, on failure roll the local state
//! back to exactly what it was, so the UI never keeps a state the server
//! rejected. Delta sync is the backstop reconciler.
use vstd::prelude::*;
use crate::store::{
    categories_set, flag_set, inference_set, message_views, moved, read_set, string_views, upsert_one,
    upserted, MailStore, MailStoreError, Message, MessageView,
};
use crate::sync::{source_error_text, SourceError};
use crate::text::{append_chars, chars_of, decimal, decimal_chars, string_of, strings_clone};

verus! {

#[derive(Debug)]
pub enum OpError {
    Source(SourceError),
    Store(MailStoreError),
    NotFound(String),
    Join(String),
}

pub open spec fn op_error_text(e: OpError) -> Seq<char> {
    match e {
        OpError::Source(s) => source_error_text(s),
        OpError::Store(s) => crate::store::store_error_text(s),
        OpError::NotFound(id) => "message not found: "@ + id@,
        OpError::Join(m) => "background task failed: "@ + m@,
    }
}

impl OpError {
    /// The error's text.
    pub fn message(&self) -> (r: String)
        ensures
            r@ == op_error_text(*self),
    {
        match self {
            OpError::Source(s) => s.message(),
            OpError::Store(s) => s.message(),
            OpError::NotFound(id) => {
                let mut v = chars_of("message not found: ");
                append_chars(&mut v, chars_of(id.as_str()).as_slice());
                string_of(v.as_slice())
            },
            OpError::Join(m) => {
                let mut v = chars_of("background task failed: ");
                append_chars(&mut v, chars_of(m.as_str()).as_slice());
                string_of(v.as_slice())
            },
        }
    }
}

/// A single mail-management operation. Carries only its inputs; the state
/// needed for rollback is captured from the store when it runs.
#[derive(Debug)]
pub enum MailOp {
    SetRead { id: String, is_read: bool },
    SetFlag { id: String, flagged: bool },
    SetCategories { id: String, categories: Vec<String> },
    SetInference { id: String, focused: bool },
    /// Move to a folder (archive, delete-to-trash and user moves all funnel here).
    Move { id: String, dest_folder_id: String },
    /// Permanent delete: nothing to undo once it succeeds, but a failed
    /// delete restores the row.
    HardDelete { id: String },
}

impl Clone for MailOp {
    fn clone(&self) -> (r: Self)
        ensures
            r@ == self@,
    {
        match self {
            MailOp::SetRead { id, is_read } => MailOp::SetRead { id: id.clone(), is_read: *is_read },
            MailOp::SetFlag { id, flagged } => MailOp::SetFlag { id: id.clone(), flagged: *flagged },
            MailOp::SetCategories { id, categories } => {
                let c = strings_clone(categories);
                MailOp::SetCategories { id: id.clone(), categories: c }
            },
            MailOp::SetInference { id, focused } => MailOp::SetInference { id: id.clone(), focused: *focused },
            MailOp::Move { id, dest_folder_id } => MailOp::Move { id: id.clone(), dest_folder_id: dest_folder_id.clone() },
            MailOp::HardDelete { id } => MailOp::HardDelete { id: id.clone() },
        }
    }
}

/// An operation as plain values.
pub enum OpView {
    SetRead { id: Seq<char>, is_read: bool },
    SetFlag { id: Seq<char>, flagged: bool },
    SetCategories { id: Seq<char>, categories: Seq<Seq<char>> },
    SetInference { id: Seq<char>, focused: bool },
    Move { id: Seq<char>, dest_folder_id: Seq<char> },
    HardDelete { id: Seq<char> },
}

impl View for MailOp {
    type V = OpView;

    open spec fn view(&self) -> OpView {
        match self {
            MailOp::SetRead { id, is_read } => OpView::SetRead { id: id@, is_read: *is_read },
            MailOp::SetFlag { id, flagged } => OpView::SetFlag { id: id@, flagged: *flagged },
            MailOp::SetCategories { id, categories } => OpView::SetCategories {
                id: id@,
                categories: string_views(categories@),
            },
            MailOp::SetInference { id, focused } => OpView::SetInference { id: id@, focused: *focused },
            MailOp::Move { id, dest_folder_id } => OpView::Move { id: id@, dest_folder_id: dest_folder_id@ },
            MailOp::HardDelete { id } => OpView::HardDelete { id: id@ },
        }
    }
}

/// The message an operation is about.
pub open spec fn op_id(op: OpView) -> Seq<char> {
    match op {
        OpView::SetRead { id, .. } => id,
        OpView::SetFlag { id, .. } => id,
        OpView::SetCategories { id, .. } => id,
        OpView::SetInference { id, .. } => id,
        OpView::Move { id, .. } => id,
        OpView::HardDelete { id } => id,
    }
}

impl MailOp {
    pub fn message_id(&self) -> (r: &str)
        ensures
            r@ == op_id(self@),
    {
        match self {
            MailOp::SetRead { id, .. } => id.as_str(),
            MailOp::SetFlag { id, .. } => id.as_str(),
            MailOp::SetCategories { id, .. } => id.as_str(),
            MailOp::SetInference { id, .. } => id.as_str(),
            MailOp::Move { id, .. } => id.as_str(),
            MailOp::HardDelete { id } => id.as_str(),
        }
    }
}

/// Graph's `flag.flagStatus` for a flag toggle.
pub open spec fn flag_word(flagged: bool) -> Seq<char> {
    if flagged {
        "flagged"@
    } else {
        "notFlagged"@
    }
}

/// Graph's `inferenceClassification` for a Focused/Other choice.
pub open spec fn inference_word(focused: bool) -> Seq<char> {
    if focused {
        "focused"@
    } else {
        "other"@
    }
}

fn flag_text(flagged: bool) -> (r: &'static str)
    ensures
        r@ == flag_word(flagged),
{
    if flagged {
        "flagged"
    } else {
        "notFlagged"
    }
}

fn inference_text(focused: bool) -> (r: &'static str)
    ensures
        r@ == inference_word(focused),
{
    if focused {
        "focused"
    } else {
        "other"
    }
}

/// The optimistic local change an operation makes.
pub open spec fn applied(map: Map<Seq<char>, MessageView>, op: OpView) -> Map<Seq<char>, MessageView> {
    match op {
        OpView::SetRead { id, is_read } => read_set(map, id, is_read),
        OpView::SetFlag { id, flagged } => flag_set(map, id, flag_word(flagged)),
        OpView::SetCategories { id, categories } => categories_set(map, id, categories),
        OpView::SetInference { id, focused } => inference_set(map, id, inference_word(focused)),
        OpView::Move { id, dest_folder_id } => moved(map, id, dest_folder_id, None),
        OpView::HardDelete { id } => map.remove(id),
    }
}

/// A message's pre-op state, kept for rollback.
#[derive(Debug)]
pub enum Rollback {
    Read { id: String, is_read: bool },
    Flag { id: String, flag_status: String },
    Categories { id: String, categories: Vec<String> },
    Inference { id: String, classification: String },
    /// Restore a moved or deleted message wholesale.
    RestoreMessage(Box<Message>),
}

pub enum RollbackView {
    Read { id: Seq<char>, is_read: bool },
    Flag { id: Seq<char>, flag_status: Seq<char> },
    Categories { id: Seq<char>, categories: Seq<Seq<char>> },
    Inference { id: Seq<char>, classification: Seq<char> },
    RestoreMessage(MessageView),
}

impl View for Rollback {
    type V = RollbackView;

    open spec fn view(&self) -> RollbackView {
        match self {
            Rollback::Read { id, is_read } => RollbackView::Read { id: id@, is_read: *is_read },
            Rollback::Flag { id, flag_status } => RollbackView::Flag { id: id@, flag_status: flag_status@ },
            Rollback::Categories { id, categories } => RollbackView::Categories {
                id: id@,
                categories: string_views(categories@),
            },
            Rollback::Inference { id, classification } => RollbackView::Inference {
                id: id@,
                classification: classification@,
            },
            Rollback::RestoreMessage(m) => RollbackView::RestoreMessage(m@),
        }
    }
}

/// What rolling back an operation needs, read from the stored message
/// before the operation runs.
pub open spec fn rollback_for(map: Map<Seq<char>, MessageView>, op: OpView) -> RollbackView {
    rollback_of(map[op_id(op)], op)
}

/// What rolling back an operation on the stored message `m` needs.
pub open spec fn rollback_of(m: MessageView, op: OpView) -> RollbackView {
    match op {
        OpView::SetRead { id, .. } => RollbackView::Read { id, is_read: m.summary.is_read },
        OpView::SetFlag { id, .. } => RollbackView::Flag { id, flag_status: m.summary.flag_status },
        OpView::SetCategories { id, .. } => RollbackView::Categories { id, categories: m.categories },
        OpView::SetInference { id, .. } => RollbackView::Inference {
            id,
            classification: m.summary.inference_classification,
        },
        OpView::Move { .. } => RollbackView::RestoreMessage(m),
        OpView::HardDelete { .. } => RollbackView::RestoreMessage(m),
    }
}

/// What a rollback does to the store.
pub open spec fn undone(map: Map<Seq<char>, MessageView>, rb: RollbackView) -> Map<Seq<char>, MessageView> {
    match rb {
        RollbackView::Read { id, is_read } => read_set(map, id, is_read),
        RollbackView::Flag { id, flag_status } => flag_set(map, id, flag_status),
        RollbackView::Categories { id, categories } => categories_set(map, id, categories),
        RollbackView::Inference { id, classification } => inference_set(map, id, classification),
        RollbackView::RestoreMessage(m) => upsert_one(map, m),
    }
}

/// Every stored message sits under its own id.
pub open spec fn keyed_by_id(map: Map<Seq<char>, MessageView>) -> bool {
    forall|k: Seq<char>| #[trigger] map.contains_key(k) ==> map[k].summary.id == k
}

fn clone_message(m: &Message) -> (r: Message)
    ensures
        r@ == m@,
{
    m.clone()
}

/// What undoes `op` on the message as it is stored now; a message that is
/// not stored is `NotFound`, carrying the operation's id.
pub fn plan_op(op: &MailOp, current: Option<&Message>) -> (r: Result<Rollback, OpError>)
    ensures
        match current {
            Some(m) => r matches Ok(rb) && rb@ == rollback_of(m@, op@),
            None => r matches Err(OpError::NotFound(id)) && id@ == op_id(op@),
        },
{
    let current = match current {
        Some(m) => m,
        None => {
            return Err(OpError::NotFound(String::from_str(op.message_id())));
        },
    };
    let s = &current.summary;
    match op {
        MailOp::SetRead { id, .. } => Ok(Rollback::Read { id: id.clone(), is_read: s.is_read }),
        MailOp::SetFlag { id, .. } => Ok(Rollback::Flag { id: id.clone(), flag_status: s.flag_status.clone() }),
        MailOp::SetCategories { id, .. } => Ok(
            Rollback::Categories { id: id.clone(), categories: strings_clone(&current.categories) },
        ),
        MailOp::SetInference { id, .. } => Ok(
            Rollback::Inference { id: id.clone(), classification: s.inference_classification.clone() },
        ),
        MailOp::Move { .. } => Ok(Rollback::RestoreMessage(Box::new(clone_message(current)))),
        MailOp::HardDelete { .. } => Ok(Rollback::RestoreMessage(Box::new(clone_message(current)))),
    }
}

/// Step one: look the message up, apply the operation locally and keep
/// what undoes it. A message that is not stored is `NotFound`, and the
/// store is left alone. A reliable store always gets this far.
pub fn begin_op<S: MailStore>(store: &mut S, op: &MailOp) -> (r: Result<Rollback, OpError>)
    requires
        old(store).wf(),
    ensures
        final(store).wf(),
        final(store).reliable() == old(store).reliable(),
        r matches Ok(rb) ==> old(store).messages().contains_key(op_id(op@)) && rb@ == rollback_for(
            old(store).messages(),
            op@,
        ) && final(store).messages() == applied(old(store).messages(), op@),
        r matches Err(e) ==> (e is Store || (e matches OpError::NotFound(id) && id@ == op_id(op@)
            && !old(store).messages().contains_key(op_id(op@)) && final(store).messages()
            == old(store).messages())),
        old(store).reliable() ==> (r is Ok <==> old(store).messages().contains_key(op_id(op@))),
        old(store).reliable() ==> (r is Err ==> r->Err_0 is NotFound),
{
    let id = op.message_id();
    let current = match store.get_message(id) {
        Ok(c) => c,
        Err(e) => {
            return Err(OpError::Store(e));
        },
    };
    let rb = match plan_op(op, current.as_ref()) {
        Ok(rb) => rb,
        Err(e) => {
            return Err(e);
        },
    };
    let res = match op {
        MailOp::SetRead { id, is_read } => store.set_read_state(id.as_str(), *is_read),
        MailOp::SetFlag { id, flagged } => store.set_flag_status(id.as_str(), flag_text(*flagged)),
        MailOp::SetCategories { id, categories } => store.set_categories(id.as_str(), categories.as_slice()),
        MailOp::SetInference { id, focused } => store.set_inference(id.as_str(), inference_text(*focused)),
        MailOp::Move { id, dest_folder_id } => store.move_message(id.as_str(), dest_folder_id.as_str(), None),
        MailOp::HardDelete { id } => store.delete_message(id.as_str()),
    };
    match res {
        Ok(()) => Ok(rb),
        Err(e) => Err(OpError::Store(e)),
    }
}

/// Roll a store back with `rb`.
pub fn rollback_local<S: MailStore>(store: &mut S, rb: Rollback) -> (r: Result<(), OpError>)
    requires
        old(store).wf(),
    ensures
        final(store).wf(),
        final(store).reliable() == old(store).reliable(),
        r is Ok ==> final(store).messages() == undone(old(store).messages(), rb@),
        r matches Err(e) ==> e is Store,
        old(store).reliable() ==> r is Ok,
{
    let ghost m0 = store.messages();
    let res = match rb {
        Rollback::Read { id, is_read } => store.set_read_state(id.as_str(), is_read),
        Rollback::Flag { id, flag_status } => store.set_flag_status(id.as_str(), flag_status.as_str()),
        Rollback::Categories { id, categories } => store.set_categories(id.as_str(), categories.as_slice()),
        Rollback::Inference { id, classification } => store.set_inference(id.as_str(), classification.as_str()),
        Rollback::RestoreMessage(m) => {
            let ghost mv = (*m)@;
            let v = vec![*m];
            proof {
                assert(message_views(v@) =~= seq![mv]);
                assert(seq![mv].drop_last() =~= Seq::<MessageView>::empty());
                assert(upserted(m0, Seq::<MessageView>::empty()) == m0);
                assert(seq![mv].last() == mv);
                assert(upserted(m0, seq![mv]) == upsert_one(m0, mv));
            }
            store.upsert_messages(v.as_slice())
        },
    };
    match res {
        Ok(()) => Ok(()),
        Err(e) => Err(OpError::Store(e)),
    }
}

/// The message id an operation ends with: a move confirmed with a new id
/// takes it; every other operation keeps its id.
pub open spec fn resulting_id(op: OpView, new_id: Option<Seq<char>>) -> Seq<char> {
    match new_id {
        Some(n) => n,
        None => op_id(op),
    }
}

/// Step three: settle the operation with the server's answer. A confirmed
/// move is re-keyed to the destination copy's id; a refusal is rolled back
/// and reported.
pub fn finish_op<S: MailStore>(
    store: &mut S,
    op: &MailOp,
    rollback: Rollback,
    outcome: Result<Option<String>, SourceError>,
) -> (r: Result<String, OpError>)
    requires
        old(store).wf(),
    ensures
        final(store).wf(),
        outcome matches Ok(n) ==> match r {
            Ok(id) => id@ == resulting_id(op@, crate::store::opt_view(n)) && final(store).messages() == match (
                op@,
                n,
            ) {
                (OpView::Move { id, dest_folder_id }, Some(nid)) => moved(
                    old(store).messages(),
                    id,
                    dest_folder_id,
                    Some(nid@),
                ),
                _ => old(store).messages(),
            },
            Err(e) => e is Store,
        },
        outcome matches Err(se) ==> r matches Err(e) && (e is Store || (e == OpError::Source(se)
            && final(store).messages() == undone(old(store).messages(), rollback@))),
        outcome matches Ok(n) ==> (!(op@ is Move && n is Some) ==> (r matches Ok(id) && id@
            == resulting_id(op@, crate::store::opt_view(n)) && final(store).messages() == old(
            store,
        ).messages())),
        old(store).reliable() ==> match outcome {
            Ok(_) => r is Ok,
            Err(se) => r == Err::<String, OpError>(OpError::Source(se)) && final(store).messages()
                == undone(old(store).messages(), rollback@),
        },
        final(store).reliable() == old(store).reliable(),
{
    match outcome {
        Ok(new_id) => {
            match (op, &new_id) {
                (MailOp::Move { id, dest_folder_id }, Some(nid)) => {
                    match store.move_message(id.as_str(), dest_folder_id.as_str(), Some(nid.as_str())) {
                        Ok(()) => {},
                        Err(e) => {
                            return Err(OpError::Store(e));
                        },
                    }
                },
                _ => {},
            }
            match new_id {
                Some(n) => Ok(n),
                None => Ok(String::from_str(op.message_id())),
            }
        },
        Err(e) => {
            match rollback_local(store, rollback) {
                Ok(()) => Err(OpError::Source(e)),
                Err(se) => Err(se),
            }
        },
    }
}

/// A refused write leaves the store exactly as it was: rolling back what
/// [`begin_op`] captured undoes what it applied, for every operation.
pub proof fn law_refused_write_restores(map: Map<Seq<char>, MessageView>, op: OpView)
    requires
        keyed_by_id(map),
        map.contains_key(op_id(op)),
    ensures
        undone(applied(map, op), rollback_for(map, op)) == map,
{
    let id = op_id(op);
    let m = map[id];
    assert(m.summary.id == id);
    match op {
        OpView::SetRead { .. } => {
            assert(read_set(applied(map, op), id, m.summary.is_read)[id].summary =~= m.summary);
            assert(undone(applied(map, op), rollback_for(map, op)) =~= map);
        },
        OpView::SetFlag { .. } => {
            assert(flag_set(applied(map, op), id, m.summary.flag_status)[id].summary =~= m.summary);
            assert(undone(applied(map, op), rollback_for(map, op)) =~= map);
        },
        OpView::SetCategories { .. } => {
            assert(undone(applied(map, op), rollback_for(map, op)) =~= map);
        },
        OpView::SetInference { .. } => {
            assert(inference_set(applied(map, op), id, m.summary.inference_classification)[id].summary
                =~= m.summary);
            assert(undone(applied(map, op), rollback_for(map, op)) =~= map);
        },
        OpView::Move { id, dest_folder_id } => {
            let a = applied(map, op);
            let e = a[id];
            assert(crate::store::merged(e, m).summary =~= m.summary);
            assert(crate::store::merged(e, m) =~= m);
            assert(undone(a, rollback_for(map, op)) =~= map);
        },
        OpView::HardDelete { .. } => {
            assert(undone(applied(map, op), rollback_for(map, op)) =~= map);
        },
    }
}

} // verus!
verus! {

/// Largest `$batch` request Graph accepts.
pub const BATCH_CHUNK: usize = 20;

/// One sub-request inside a `$batch`. `index` is its position in the input
/// list and doubles as the batch correlation id. `body` is JSON text.
#[derive(Debug)]
pub struct BatchSub {
    pub index: usize,
    pub method: &'static str,
    /// Relative Graph URL, e.g. `/me/messages/{id}/move`.
    pub url: String,
    pub body: Option<String>,
}

pub struct SubView {
    pub index: usize,
    pub method: Seq<char>,
    pub url: Seq<char>,
    pub body: Option<Seq<char>>,
}

impl View for BatchSub {
    type V = SubView;

    open spec fn view(&self) -> SubView {
        SubView { index: self.index, method: self.method@, url: self.url@, body: crate::store::opt_view(self.body) }
    }
}

/// The answer to one sub-request, correlated by `index`, with what the
/// logic reads of its JSON body: the new id a move returns, and the
/// server's error message.
#[derive(Debug)]
pub struct SubResult {
    pub index: usize,
    pub status: u16,
    /// `body.id`, when the body carries one.
    pub new_id: Option<String>,
    /// `body.error.message`, when the body carries one.
    pub error_message: Option<String>,
}

pub struct ResultView {
    pub index: usize,
    pub status: u16,
    pub new_id: Option<Seq<char>>,
    pub error_message: Option<Seq<char>>,
}

impl View for SubResult {
    type V = ResultView;

    open spec fn view(&self) -> ResultView {
        ResultView {
            index: self.index,
            status: self.status,
            new_id: crate::store::opt_view(self.new_id),
            error_message: crate::store::opt_view(self.error_message),
        }
    }
}

pub open spec fn hex_digit(n: int) -> char {
    if n < 10 {
        (('0' as int) + n) as char
    } else {
        (('a' as int) + n - 10) as char
    }
}

/// One character inside a JSON string literal, escaped as `serde_json`
/// writes it.
pub open spec fn json_escaped_char(c: char) -> Seq<char> {
    if c == '"' {
        seq!['\\', '"']
    } else if c == '\\' {
        seq!['\\', '\\']
    } else if c == '\n' {
        seq!['\\', 'n']
    } else if c == '\r' {
        seq!['\\', 'r']
    } else if c == '\t' {
        seq!['\\', 't']
    } else if c == '\u{8}' {
        seq!['\\', 'b']
    } else if c == '\u{c}' {
        seq!['\\', 'f']
    } else if (c as u32) < 0x20 {
        seq!['\\', 'u', '0', '0', hex_digit(((c as u32) / 16) as int), hex_digit(((c as u32) % 16) as int)]
    } else {
        seq![c]
    }
}

pub open spec fn json_escaped(s: Seq<char>) -> Seq<char>
    decreases s.len(),
{
    if s.len() == 0 {
        Seq::empty()
    } else {
        json_escaped(s.drop_last()) + json_escaped_char(s.last())
    }
}

/// A JSON string literal holding `s`.
pub open spec fn json_string(s: Seq<char>) -> Seq<char> {
    seq!['"'] + json_escaped(s) + seq!['"']
}

/// A JSON array of strings.
pub open spec fn json_string_array(v: Seq<Seq<char>>) -> Seq<char>
    decreases v.len(),
{
    if v.len() == 0 {
        "[]"@
    } else {
        let inner = json_array_items(v);
        seq!['['] + inner + seq![']']
    }
}

pub open spec fn json_array_items(v: Seq<Seq<char>>) -> Seq<char>
    decreases v.len(),
{
    if v.len() == 0 {
        Seq::empty()
    } else if v.len() == 1 {
        json_string(v[0])
    } else {
        json_array_items(v.drop_last()) + seq![','] + json_string(v.last())
    }
}

/// `serde_json::to_string(s)` on a string slice: its JSON string literal,
/// quoted and escaped by `serde_json`'s table (`"` and `\\` backslashed,
/// backspace, tab, line feed, form feed and carriage return by letter, the
/// other controls below 0x20 as `\u00xx` in lowercase hex, every other
/// character as it is). Writing a string into a `Vec` never fails.
#[verifier::external_body]
fn json_string_text(s: &str) -> (r: String)
    ensures
        r@ == json_string(s@),
{
    serde_json::to_string(s).unwrap_or_default()
}

/// Append `s` to `out` as a JSON string literal.
pub(crate) fn push_json_string(out: &mut Vec<char>, s: &str)
    ensures
        final(out)@ == old(out)@ + json_string(s@),
{
    let lit = json_string_text(s);
    append_chars(out, chars_of(lit.as_str()).as_slice());
}

/// The `$batch` method, URL and JSON body of an operation.
pub open spec fn sub_for(index: usize, op: OpView) -> SubView {
    match op {
        OpView::SetRead { id, is_read } => SubView {
            index,
            method: "PATCH"@,
            url: "/me/messages/"@ + id,
            body: Some(
                "{\"isRead\":"@ + if is_read {
                    "true"@
                } else {
                    "false"@
                } + "}"@,
            ),
        },
        OpView::SetFlag { id, flagged } => SubView {
            index,
            method: "PATCH"@,
            url: "/me/messages/"@ + id,
            body: Some("{\"flag\":{\"flagStatus\":\""@ + flag_word(flagged) + "\"}}"@),
        },
        OpView::SetCategories { id, categories } => SubView {
            index,
            method: "PATCH"@,
            url: "/me/messages/"@ + id,
            body: Some("{\"categories\":"@ + json_string_array(categories) + "}"@),
        },
        OpView::SetInference { id, focused } => SubView {
            index,
            method: "PATCH"@,
            url: "/me/messages/"@ + id,
            body: Some("{\"inferenceClassification\":\""@ + inference_word(focused) + "\"}"@),
        },
        OpView::Move { id, dest_folder_id } => SubView {
            index,
            method: "POST"@,
            url: "/me/messages/"@ + id + "/move"@,
            body: Some("{\"destinationId\":"@ + json_string(dest_folder_id) + "}"@),
        },
        OpView::HardDelete { id } => SubView { index, method: "DELETE"@, url: "/me/messages/"@ + id, body: None },
    }
}

fn concat(a: &str, b: &str) -> (r: String)
    ensures
        r@ == a@ + b@,
{
    let mut v = chars_of(a);
    append_chars(&mut v, chars_of(b).as_slice());
    string_of(v.as_slice())
}

/// Build the `$batch` sub-request for a single operation.
pub fn op_to_sub(index: usize, op: &MailOp) -> (r: BatchSub)
    ensures
        r@ == sub_for(index, op@),
{
    match op {
        MailOp::SetRead { id, is_read } => BatchSub {
            index,
            method: "PATCH",
            url: concat("/me/messages/", id.as_str()),
            body: Some(
                {
                    let mut b = chars_of("{\"isRead\":");
                    append_chars(&mut b, chars_of(if *is_read { "true" } else { "false" }).as_slice());
                    append_chars(&mut b, chars_of("}").as_slice());
                    string_of(b.as_slice())
                },
            ),
        },
        MailOp::SetFlag { id, flagged } => {
            let mut b = chars_of("{\"flag\":{\"flagStatus\":\"");
            append_chars(&mut b, chars_of(flag_text(*flagged)).as_slice());
            append_chars(&mut b, chars_of("\"}}").as_slice());
            BatchSub {
                index,
                method: "PATCH",
                url: concat("/me/messages/", id.as_str()),
                body: Some(string_of(b.as_slice())),
            }
        },
        MailOp::SetCategories { id, categories } => {
            let mut b = chars_of("{\"categories\":");
            let ghost cv = string_views(categories@);
            if categories.len() == 0 {
                append_chars(&mut b, chars_of("[]").as_slice());
            } else {
                b.push('[');
                let ghost open = b@;
                push_json_string(&mut b, categories[0].as_str());
                let mut k: usize = 1;
                proof {
                    assert(cv.take(1).len() == 1);
                    assert(json_array_items(cv.take(1)) == json_string(cv[0]));
                }
                while k < categories.len()
                    invariant
                        1 <= k <= categories@.len(),
                        cv == string_views(categories@),
                        b@ == open + json_array_items(cv.take(k as int)),
                    decreases categories@.len() - k,
                {
                    b.push(',');
                    push_json_string(&mut b, categories[k].as_str());
                    proof {
                        assert(cv.take(k + 1).drop_last() =~= cv.take(k as int));
                        assert(cv.take(k + 1).last() == categories@[k as int]@);
                    }
                    k = k + 1;
                }
                assert(cv.take(cv.len() as int) =~= cv);
                b.push(']');
            }
            append_chars(&mut b, chars_of("}").as_slice());
            assert(b@ =~= "{\"categories\":"@ + json_string_array(cv) + "}"@);
            BatchSub {
                index,
                method: "PATCH",
                url: concat("/me/messages/", id.as_str()),
                body: Some(string_of(b.as_slice())),
            }
        },
        MailOp::SetInference { id, focused } => {
            let mut b = chars_of("{\"inferenceClassification\":\"");
            append_chars(&mut b, chars_of(inference_text(*focused)).as_slice());
            append_chars(&mut b, chars_of("\"}").as_slice());
            BatchSub {
                index,
                method: "PATCH",
                url: concat("/me/messages/", id.as_str()),
                body: Some(string_of(b.as_slice())),
            }
        },
        MailOp::Move { id, dest_folder_id } => {
            let mut b = chars_of("{\"destinationId\":");
            push_json_string(&mut b, dest_folder_id.as_str());
            append_chars(&mut b, chars_of("}").as_slice());
            let mut u = chars_of("/me/messages/");
            append_chars(&mut u, chars_of(id.as_str()).as_slice());
            append_chars(&mut u, chars_of("/move").as_slice());
            BatchSub { index, method: "POST", url: string_of(u.as_slice()), body: Some(string_of(b.as_slice())) }
        },
        MailOp::HardDelete { id } => BatchSub {
            index,
            method: "DELETE",
            url: concat("/me/messages/", id.as_str()),
            body: None,
        },
    }
}

} // verus!
verus! {

#[derive(Debug)]
pub struct ItemOutcome {
    pub id: String,
    /// Set when a move reconciled to the destination copy's new id.
    pub new_id: Option<String>,
    /// `None`: confirmed by the server; `Some`: failed and rolled back.
    pub error: Option<String>,
}

impl Clone for ItemOutcome {
    fn clone(&self) -> (r: Self)
        ensures
            r@ == self@,
    {
        ItemOutcome {
            id: self.id.clone(),
            new_id: crate::text::clone_opt_string(&self.new_id),
            error: crate::text::clone_opt_string(&self.error),
        }
    }
}

pub struct OutcomeView {
    pub id: Seq<char>,
    pub new_id: Option<Seq<char>>,
    pub error: Option<Seq<char>>,
}

impl View for ItemOutcome {
    type V = OutcomeView;

    open spec fn view(&self) -> OutcomeView {
        OutcomeView {
            id: self.id@,
            new_id: crate::store::opt_view(self.new_id),
            error: crate::store::opt_view(self.error),
        }
    }
}

pub open spec fn outcome_views(v: Seq<ItemOutcome>) -> Seq<OutcomeView> {
    v.map_values(|o: ItemOutcome| o@)
}

#[derive(Debug)]
pub struct BatchOutcome {
    /// One per input operation, in input order.
    pub outcomes: Vec<ItemOutcome>,
}

impl Default for BatchOutcome {
    fn default() -> (r: Self)
        ensures
            r.outcomes@.len() == 0,
    {
        BatchOutcome { outcomes: Vec::new() }
    }
}

/// The ids whose operation failed, in input order.
pub open spec fn failed(v: Seq<OutcomeView>) -> Seq<Seq<char>>
    decreases v.len(),
{
    if v.len() == 0 {
        Seq::empty()
    } else if v.last().error is Some {
        failed(v.drop_last()).push(v.last().id)
    } else {
        failed(v.drop_last())
    }
}

impl BatchOutcome {
    pub fn failed_ids(&self) -> (r: Vec<String>)
        ensures
            string_views(r@) == failed(outcome_views(self.outcomes@)),
    {
        let ghost ov = outcome_views(self.outcomes@);
        let mut r: Vec<String> = Vec::new();
        let mut i: usize = 0;
        while i < self.outcomes.len()
            invariant
                i <= ov.len(),
                ov == outcome_views(self.outcomes@),
                string_views(r@) == failed(ov.take(i as int)),
            decreases ov.len() - i,
        {
            let ghost prev = string_views(r@);
            proof {
                assert(ov.take(i + 1).drop_last() =~= ov.take(i as int));
                assert(ov.take(i + 1).last() == self.outcomes@[i as int]@);
            }
            if self.outcomes[i].error.is_some() {
                r.push(self.outcomes[i].id.clone());
                assert(string_views(r@) =~= prev.push(self.outcomes@[i as int].id@));
            }
            i = i + 1;
        }
        assert(ov.take(ov.len() as int) =~= ov);
        r
    }

    pub fn failed_count(&self) -> (r: usize)
        ensures
            r == failed(outcome_views(self.outcomes@)).len(),
    {
        let ghost ov = outcome_views(self.outcomes@);
        let mut n: usize = 0;
        let mut i: usize = 0;
        while i < self.outcomes.len()
            invariant
                i <= ov.len(),
                ov == outcome_views(self.outcomes@),
                n == failed(ov.take(i as int)).len(),
                n <= i,
            decreases ov.len() - i,
        {
            proof {
                assert(ov.take(i + 1).drop_last() =~= ov.take(i as int));
                assert(ov.take(i + 1).last() == self.outcomes@[i as int]@);
            }
            if self.outcomes[i].error.is_some() {
                n = n + 1;
            }
            i = i + 1;
        }
        assert(ov.take(ov.len() as int) =~= ov);
        n
    }
}

/// The first answer carrying index `i`.
pub open spec fn find_result(rs: Seq<ResultView>, i: int) -> Option<ResultView>
    decreases rs.len(),
{
    if rs.len() == 0 {
        None
    } else if rs[0].index == i {
        Some(rs[0])
    } else {
        find_result(rs.drop_first(), i)
    }
}

pub open spec fn is_success(status: u16) -> bool {
    200 <= status < 300
}

/// The text recorded for an item the server refused or never answered.
pub open spec fn failure_text(res: Option<ResultView>) -> Seq<char> {
    match res {
        Some(r) => decimal(r.status as nat) + ": "@ + match r.error_message {
            Some(m) => m,
            None => "request failed"@,
        },
        None => "no response in batch"@,
    }
}

/// An item's outcome once its chunk is answered: a 2xx confirms it (a
/// move records the destination copy's id); anything else fails it.
pub open spec fn settled_outcome(o: OutcomeView, op: OpView, res: Option<ResultView>) -> OutcomeView {
    match res {
        Some(r) => if is_success(r.status) {
            if op is Move {
                OutcomeView { new_id: r.new_id, ..o }
            } else {
                o
            }
        } else {
            OutcomeView { error: Some(failure_text(res)), ..o }
        },
        None => OutcomeView { error: Some(failure_text(res)), ..o },
    }
}

/// What an answered item does to the store: a confirmed move is re-keyed
/// to the destination copy's id; a failed item gets its pre-op snapshot
/// back; a confirmed change stays as applied.
pub open spec fn settled_store(
    map: Map<Seq<char>, MessageView>,
    op: OpView,
    snapshot: MessageView,
    res: Option<ResultView>,
) -> Map<Seq<char>, MessageView> {
    match res {
        Some(r) => if is_success(r.status) {
            match (op, r.new_id) {
                (OpView::Move { id, dest_folder_id }, Some(n)) => moved(map, id, dest_folder_id, Some(n)),
                _ => map,
            }
        } else {
            upsert_one(map, snapshot)
        },
        None => upsert_one(map, snapshot),
    }
}

/// Settling an answer calls the store: a refused or unanswered item gets
/// its snapshot back, and a confirmed move with a new id is re-keyed.
pub open spec fn settle_calls_store(op: OpView, res: Option<ResultView>) -> bool {
    match res {
        Some(r) => if is_success(r.status) {
            op is Move && r.new_id is Some
        } else {
            true
        },
        None => true,
    }
}

/// The store after the answers for items `start..end` are applied in order.
pub open spec fn chunk_effect(
    map: Map<Seq<char>, MessageView>,
    items: Seq<(OpView, MessageView)>,
    rs: Seq<ResultView>,
    start: int,
    end: int,
) -> Map<Seq<char>, MessageView>
    decreases end - start,
{
    if end <= start {
        map
    } else {
        let i = end - 1;
        settled_store(chunk_effect(map, items, rs, start, i), items[i].0, items[i].1, find_result(rs, i))
    }
}

/// The store after the snapshots of items `start..end` are restored in order.
pub open spec fn restored(map: Map<Seq<char>, MessageView>, items: Seq<(OpView, MessageView)>, start: int, end: int) -> Map<
    Seq<char>,
    MessageView,
>
    decreases end - start,
{
    if end <= start {
        map
    } else {
        upsert_one(restored(map, items, start, end - 1), items[end - 1].1)
    }
}

pub open spec fn item_views(v: Seq<(MailOp, Message)>) -> Seq<(OpView, MessageView)> {
    v.map_values(|p: (MailOp, Message)| (p.0@, p.1@))
}

pub open spec fn result_views(v: Seq<SubResult>) -> Seq<ResultView> {
    v.map_values(|r: SubResult| r@)
}

pub open spec fn chunk_end(next: int, len: int) -> int {
    if next + BATCH_CHUNK < len {
        next + BATCH_CHUNK
    } else {
        len
    }
}

/// A bulk action in flight. The items are already applied to the store
/// optimistically; each carries its pre-op snapshot. Chunks of at most
/// [`BATCH_CHUNK`] go out in order: a per-item failure restores only that
/// item, a confirmed move is reconciled to its new id, confirmed siblings
/// stay applied, and a whole-chunk transport failure restores that chunk
/// and every item not yet sent. Nothing stays applied without a 2xx.
pub struct BatchRun {
    items: Vec<(MailOp, Message)>,
    outcomes: Vec<ItemOutcome>,
    next: usize,
    stopped: bool,
}

impl BatchRun {
    pub closed spec fn items(&self) -> Seq<(OpView, MessageView)> {
        item_views(self.items@)
    }

    pub closed spec fn outcomes(&self) -> Seq<OutcomeView> {
        outcome_views(self.outcomes@)
    }

    /// The first item not yet sent.
    pub closed spec fn next_item(&self) -> int {
        self.next as int
    }

    /// A transport failure ended the run.
    pub closed spec fn stopped(&self) -> bool {
        self.stopped
    }

    pub closed spec fn wf(&self) -> bool {
        &&& self.outcomes@.len() == self.items@.len()
        &&& self.next <= self.items@.len()
    }

    /// Start a run: every item pending, none failed.
    pub fn new(items: Vec<(MailOp, Message)>) -> (r: Self)
        ensures
            r.wf(),
            r.items() == item_views(items@),
            r.next_item() == 0,
            !r.stopped(),
            r.outcomes().len() == items@.len(),
            forall|i: int|
                0 <= i < items@.len() ==> (#[trigger] r.outcomes()[i]) == (OutcomeView {
                    id: op_id(items@[i].0@),
                    new_id: None,
                    error: None,
                }),
    {
        let mut outcomes: Vec<ItemOutcome> = Vec::new();
        let mut i: usize = 0;
        while i < items.len()
            invariant
                i <= items@.len(),
                outcomes@.len() == i,
                forall|j: int|
                    0 <= j < i ==> (#[trigger] outcomes@[j])@ == (OutcomeView {
                        id: op_id(items@[j].0@),
                        new_id: None,
                        error: None,
                    }),
            decreases items@.len() - i,
        {
            let id = String::from_str(items[i].0.message_id());
            outcomes.push(ItemOutcome { id, new_id: None, error: None });
            i = i + 1;
        }
        BatchRun { items, outcomes, next: 0, stopped: false }
    }

    /// The next chunk to send, or `None` when the run is over.
    pub fn next_chunk(&self) -> (r: Option<Vec<BatchSub>>)
        requires
            self.wf(),
        ensures
            r is None <==> (self.stopped() || self.next_item() >= self.items().len()),
            r matches Some(subs) ==> subs@.len() == chunk_end(self.next_item(), self.items().len() as int)
                - self.next_item() && forall|k: int|
                0 <= k < subs@.len() ==> (#[trigger] subs@[k])@ == sub_for(
                    (self.next_item() + k) as usize,
                    self.items()[self.next_item() + k].0,
                ),
    {
        if self.stopped || self.next >= self.items.len() {
            return None;
        }
        let end = if self.items.len() - self.next > BATCH_CHUNK {
            self.next + BATCH_CHUNK
        } else {
            self.items.len()
        };
        let mut subs: Vec<BatchSub> = Vec::new();
        let mut i = self.next;
        while i < end
            invariant
                self.next <= i <= end <= self.items@.len(),
                subs@.len() == i - self.next,
                forall|k: int|
                    0 <= k < subs@.len() ==> (#[trigger] subs@[k])@ == sub_for(
                        (self.next + k) as usize,
                        item_views(self.items@)[self.next + k].0,
                    ),
            decreases end - i,
        {
            subs.push(op_to_sub(i, &self.items[i].0));
            i = i + 1;
        }
        Some(subs)
    }

    /// Settle the chunk in flight with the writer's answer. Returns whether
    /// every store call succeeded; the store's state is stated for that
    /// case, which a reliable store always reaches. A chunk whose answers
    /// need no store call (every item confirmed, no move re-keyed) leaves
    /// the store as it was.
    pub fn settle<S: MailStore>(&mut self, store: &mut S, answer: Result<Vec<SubResult>, SourceError>) -> (all_ok:
        bool)
        requires
            old(self).wf(),
            old(store).wf(),
        ensures
            final(self).wf(),
            final(store).wf(),
            final(store).reliable() == old(store).reliable(),
            old(store).reliable() ==> all_ok,
            final(self).items() == old(self).items(),
            (old(self).stopped() || old(self).next_item() >= old(self).items().len()) ==> *final(self) == *old(self)
                && final(store).messages() == old(store).messages(),
            !old(self).stopped() && old(self).next_item() < old(self).items().len() ==> match answer {
                Ok(rs) => {
                    let start = old(self).next_item();
                    let end = chunk_end(start, old(self).items().len() as int);
                    &&& final(self).next_item() == end
                    &&& !final(self).stopped()
                    &&& forall|i: int|
                        0 <= i < old(self).items().len() ==> #[trigger] final(self).outcomes()[i] == if start <= i
                            < end {
                            settled_outcome(
                                old(self).outcomes()[i],
                                old(self).items()[i].0,
                                find_result(result_views(rs@), i),
                            )
                        } else {
                            old(self).outcomes()[i]
                        }
                    &&& all_ok ==> final(store).messages() == chunk_effect(
                        old(store).messages(),
                        old(self).items(),
                        result_views(rs@),
                        start,
                        end,
                    )
                    &&& (forall|i: int|
                        start <= i < end ==> !settle_calls_store(
                            old(self).items()[i].0,
                            #[trigger] find_result(result_views(rs@), i),
                        )) ==> all_ok && final(store).messages() == old(store).messages()
                },
                Err(e) => {
                    let start = old(self).next_item();
                    &&& final(self).stopped()
                    &&& final(self).next_item() == start
                    &&& forall|i: int|
                        0 <= i < old(self).items().len() ==> #[trigger] final(self).outcomes()[i] == if start <= i {
                            OutcomeView { error: Some(source_error_text(e)), ..old(self).outcomes()[i] }
                        } else {
                            old(self).outcomes()[i]
                        }
                    &&& all_ok ==> final(store).messages() == restored(
                        old(store).messages(),
                        old(self).items(),
                        start,
                        old(self).items().len() as int,
                    )
                },
            },
    {
        if self.stopped || self.next >= self.items.len() {
            return true;
        }
        let start = self.next;
        let len = self.items.len();
        let ghost iv = item_views(self.items@);
        let ghost ov0 = outcome_views(self.outcomes@);
        let ghost m0 = store.messages();
        let ghost r0 = store.reliable();
        let mut all_ok = true;
        match answer {
            Ok(rs) => {
                let ghost rv = result_views(rs@);
                let end = if len - start > BATCH_CHUNK {
                    start + BATCH_CHUNK
                } else {
                    len
                };
                let mut i = start;
                while i < end
                    invariant
                        start <= i <= end <= len,
                        self.next == start,
                        !self.stopped,
                        ov0.len() == len,
                        len == self.items@.len(),
                        self.outcomes@.len() == len,
                        iv == item_views(self.items@),
                        rv == result_views(rs@),
                        store.wf(),
                        end == chunk_end(start as int, len as int),
                        forall|j: int|
                            0 <= j < len ==> #[trigger] outcome_views(self.outcomes@)[j] == if start <= j < i {
                                settled_outcome(ov0[j], iv[j].0, find_result(rv, j))
                            } else {
                                ov0[j]
                            },
                        all_ok ==> store.messages() == chunk_effect(m0, iv, rv, start as int, i as int),
                        store.reliable() == r0,
                        r0 ==> all_ok,
                        (forall|j: int| start <= j < i ==> !settle_calls_store(iv[j].0, #[trigger] find_result(rv, j)))
                            ==> all_ok && store.messages() == m0,
                    decreases end - i,
                {
                    let found = find_answer(&rs, i);
                    let ghost res = find_result(rv, i as int);
                    let ghost before = store.messages();
                    let ghost obefore = outcome_views(self.outcomes@);
                    let mut o = self.outcomes[i].clone();
                    proof {
                        assert(obefore[i as int] == ov0[i as int]);
                        assert(o@ == ov0[i as int]);
                        assert(iv[i as int].0 == self.items@[i as int].0@);
                    }
                    let ok = match found {
                        Some(k) => 200 <= rs[k].status && rs[k].status < 300,
                        None => false,
                    };
                    if ok {
                        let k = found.unwrap();
                        match &self.items[i].0 {
                            MailOp::Move { id, dest_folder_id } => {
                                match &rs[k].new_id {
                                    Some(nid) => {
                                        match store.move_message(id.as_str(), dest_folder_id.as_str(), Some(nid.as_str())) {
                                            Ok(()) => {},
                                            Err(_) => {
                                                all_ok = false;
                                            },
                                        }
                                    },
                                    None => {},
                                }
                                o.new_id = crate::text::clone_opt_string(&rs[k].new_id);
                            },
                            _ => {},
                        }
                    } else {
                        let msg = failure_message(&rs, found);
                        let snap = clone_message(&self.items[i].1);
                        let ghost sv = snap@;
                        let v = vec![snap];
                        proof {
                            assert(message_views(v@) =~= seq![sv]);
                            assert(seq![sv].drop_last() =~= Seq::<MessageView>::empty());
                            assert(upserted(before, Seq::<MessageView>::empty()) == before);
                            assert(seq![sv].last() == sv);
                        }
                        match store.upsert_messages(v.as_slice()) {
                            Ok(()) => {},
                            Err(_) => {
                                all_ok = false;
                            },
                        }
                        o.error = Some(msg);
                    }
                    assert(o@ == settled_outcome(ov0[i as int], iv[i as int].0, res));
                    self.outcomes.set(i, o);
                    proof {
                        assert(outcome_views(self.outcomes@) =~= obefore.update(i as int, settled_outcome(ov0[i as int], iv[i as int].0, res)));
                    }
                    i = i + 1;
                }
                self.next = end;
            },
            Err(e) => {
                let msg = e.message();
                let mut i = start;
                while i < len
                    invariant
                        start <= i <= len,
                        self.next == start,
                        !self.stopped,
                        ov0.len() == len,
                        len == self.items@.len(),
                        self.outcomes@.len() == len,
                        iv == item_views(self.items@),
                        store.wf(),
                        msg@ == source_error_text(e),
                        forall|j: int|
                            0 <= j < len ==> #[trigger] outcome_views(self.outcomes@)[j] == if start <= j < i {
                                OutcomeView { error: Some(source_error_text(e)), ..ov0[j] }
                            } else {
                                ov0[j]
                            },
                        all_ok ==> store.messages() == restored(m0, iv, start as int, i as int),
                        store.reliable() == r0,
                        r0 ==> all_ok,
                    decreases len - i,
                {
                    let ghost before = store.messages();
                    let ghost obefore = outcome_views(self.outcomes@);
                    let snap = clone_message(&self.items[i].1);
                    let ghost sv = snap@;
                    let v = vec![snap];
                    proof {
                        assert(message_views(v@) =~= seq![sv]);
                        assert(seq![sv].drop_last() =~= Seq::<MessageView>::empty());
                        assert(upserted(before, Seq::<MessageView>::empty()) == before);
                        assert(seq![sv].last() == sv);
                    }
                    match store.upsert_messages(v.as_slice()) {
                        Ok(()) => {},
                        Err(_) => {
                            all_ok = false;
                        },
                    }
                    let mut o = self.outcomes[i].clone();
                    proof {
                        assert(obefore[i as int] == ov0[i as int]);
                    }
                    o.error = Some(msg.clone());
                    assert(o@ == OutcomeView { error: Some(source_error_text(e)), ..ov0[i as int] });
                    self.outcomes.set(i, o);
                    proof {
                        assert(outcome_views(self.outcomes@) =~= obefore.update(
                            i as int,
                            OutcomeView { error: Some(source_error_text(e)), ..ov0[i as int] },
                        ));
                    }
                    i = i + 1;
                }
                self.stopped = true;
            },
        }
        all_ok
    }

    /// The outcomes, one per item in input order.
    pub fn finish(self) -> (r: BatchOutcome)
        ensures
            outcome_views(r.outcomes@) == self.outcomes(),
    {
        BatchOutcome { outcomes: self.outcomes }
    }
}

/// The position of the first answer with index `i`.
fn find_answer(rs: &Vec<SubResult>, i: usize) -> (r: Option<usize>)
    ensures
        match r {
            Some(k) => k < rs@.len() && find_result(result_views(rs@), i as int) == Some(rs@[k as int]@),
            None => find_result(result_views(rs@), i as int) is None,
        },
{
    let ghost rv = result_views(rs@);
    let mut k: usize = 0;
    assert(rv.skip(0) =~= rv);
    while k < rs.len()
        invariant
            k <= rs@.len(),
            rv == result_views(rs@),
            find_result(rv, i as int) == find_result(rv.skip(k as int), i as int),
        decreases rs@.len() - k,
    {
        proof {
            assert(rv.skip(k as int)[0] == rs@[k as int]@);
            assert(rv.skip(k as int).drop_first() =~= rv.skip(k + 1));
        }
        if rs[k].index == i {
            return Some(k);
        }
        k = k + 1;
    }
    proof {
        assert(rv.skip(k as int) =~= Seq::<ResultView>::empty());
    }
    None
}

/// The recorded failure text for an item (see [`failure_text`]).
fn failure_message(rs: &Vec<SubResult>, found: Option<usize>) -> (r: String)
    requires
        found matches Some(k) ==> k < rs@.len(),
    ensures
        r@ == failure_text(
            match found {
                Some(k) => Some(rs@[k as int]@),
                None => None,
            },
        ),
{
    match found {
        Some(k) => {
            let mut v = decimal_chars(rs[k].status as u64);
            append_chars(&mut v, chars_of(": ").as_slice());
            match &rs[k].error_message {
                Some(m) => append_chars(&mut v, chars_of(m.as_str()).as_slice()),
                None => append_chars(&mut v, chars_of("request failed").as_slice()),
            }
            string_of(v.as_slice())
        },
        None => String::from_str("no response in batch"),
    }
}

} // verus!
verus! {

/// In a bulk action, restoring a failed item's pre-op snapshot undoes the
/// optimistic change, for every operation, except that categories set on
/// a message whose stored summary is a partial event (empty sender, no
/// date) are kept, since such an upsert keeps the stored categories.
pub proof fn law_snapshot_restore_undoes(map: Map<Seq<char>, MessageView>, op: OpView)
    requires
        keyed_by_id(map),
        map.contains_key(op_id(op)),
        !(op is SetCategories && crate::store::partial_event(map[op_id(op)].summary)),
    ensures
        upsert_one(applied(map, op), map[op_id(op)]) == map,
{
    let id = op_id(op);
    let m = map[id];
    assert(m.summary.id == id);
    let a = applied(map, op);
    match op {
        OpView::HardDelete { .. } => {
            assert(upsert_one(a, m) =~= map);
        },
        _ => {
            let e = a[id];
            assert(crate::store::merged(e, m).summary =~= m.summary);
            assert(crate::store::merged(e, m) =~= m);
            assert(upsert_one(a, m) =~= map);
        },
    }
}

} // verus!
verus! {

/// What the undo toast of a queued action names: the message's subject when
/// the action touches one message, else how many it touches.
pub open spec fn toast_subject_of(count: nat, first_subject: Seq<char>) -> Seq<char> {
    if count == 1 {
        first_subject
    } else {
        decimal(count) + " messages"@
    }
}

pub fn toast_subject(count: usize, first_subject: &str) -> (r: String)
    ensures
        r@ == toast_subject_of(count as nat, first_subject@),
{
    if count == 1 {
        String::from_str(first_subject)
    } else {
        let mut v = decimal_chars(count as u64);
        let tail = chars_of(" messages");
        append_chars(&mut v, tail.as_slice());
        string_of(v.as_slice())
    }
}

/// What a finished batch reports: nothing when every item went through,
/// else how many of how many failed.
pub open spec fn batch_report_of(failed: nat, total: nat) -> Option<Seq<char>> {
    if failed == 0 {
        None
    } else {
        Some(decimal(failed) + " of "@ + decimal(total) + " couldn't be completed"@)
    }
}

pub fn batch_report(failed: usize, total: usize) -> (r: Option<String>)
    ensures
        r matches Some(s) ==> batch_report_of(failed as nat, total as nat) == Some(s@),
        r is None <==> batch_report_of(failed as nat, total as nat) is None,
{
    if failed == 0 {
        None
    } else {
        let mut v = decimal_chars(failed as u64);
        let mid = chars_of(" of ");
        append_chars(&mut v, mid.as_slice());
        let t = decimal_chars(total as u64);
        append_chars(&mut v, t.as_slice());
        let tail = chars_of(" couldn't be completed");
        append_chars(&mut v, tail.as_slice());
        Some(string_of(v.as_slice()))
    }
}

} // verus!
verus! {

/// A bulk action applied in order to the stored messages: every operation
/// whose message is stored applies and is kept with a snapshot of that
/// message taken just before it applied; the others are dropped. Gives the
/// messages afterwards and the kept (operation, snapshot) pairs.
pub open spec fn staged(map: Map<Seq<char>, MessageView>, ops: Seq<OpView>) -> (
    Map<Seq<char>, MessageView>,
    Seq<(OpView, MessageView)>,
)
    decreases ops.len(),
{
    if ops.len() == 0 {
        (map, Seq::empty())
    } else {
        let prev = staged(map, ops.drop_last());
        let op = ops.last();
        if prev.0.contains_key(op_id(op)) {
            (applied(prev.0, op), prev.1.push((op, prev.0[op_id(op)])))
        } else {
            prev
        }
    }
}

proof fn lemma_staged_nothing(map: Map<Seq<char>, MessageView>, ops: Seq<OpView>)
    requires
        staged(map, ops).1.len() == 0,
    ensures
        staged(map, ops).0 == map,
    decreases ops.len(),
{
    if ops.len() > 0 {
        let prev = staged(map, ops.drop_last());
        if prev.0.contains_key(op_id(ops.last())) {
            assert(staged(map, ops).1.len() == prev.1.len() + 1);
        } else {
            lemma_staged_nothing(map, ops.drop_last());
        }
    }
}

pub open spec fn op_views(v: Seq<MailOp>) -> Seq<OpView> {
    v.map_values(|o: MailOp| o@)
}

/// Why a bulk action could not be queued.
#[derive(Debug)]
pub enum StageError {
    Store(MailStoreError),
    /// None of the action's messages is stored.
    NothingFound,
}

impl StageError {
    pub fn message(&self) -> (r: String)
        ensures
            match self {
                StageError::Store(e) => r@ == crate::store::store_error_text(*e),
                StageError::NothingFound => r@ == "no messages found"@,
            },
    {
        match self {
            StageError::Store(e) => e.message(),
            StageError::NothingFound => String::from_str("no messages found"),
        }
    }
}

/// Queue-time half of a bulk action: snapshot and optimistically apply each
/// operation whose message is stored, so a repaint during the undo window
/// already shows the change. Fails when none of the messages is stored.
pub fn stage_bulk<S: MailStore>(store: &mut S, ops: Vec<MailOp>) -> (r: Result<Vec<(MailOp, Message)>, StageError>)
    requires
        old(store).wf(),
    ensures
        final(store).wf(),
        r matches Ok(items) ==> item_views(items@) == staged(old(store).messages(), op_views(ops@)).1
            && items@.len() > 0 && final(store).messages() == staged(old(store).messages(), op_views(ops@)).0,
        r matches Err(e) ==> (e is Store || (staged(old(store).messages(), op_views(ops@)).1.len() == 0
            && final(store).messages() == old(store).messages())),
        old(store).reliable() ==> (r is Ok <==> staged(old(store).messages(), op_views(ops@)).1.len() > 0),
        old(store).reliable() ==> (r is Err ==> r->Err_0 is NothingFound),
        final(store).reliable() == old(store).reliable(),
{
    let ghost m0 = store.messages();
    let ghost ov = op_views(ops@);
    let mut items: Vec<(MailOp, Message)> = Vec::new();
    let mut i: usize = 0;
    while i < ops.len()
        invariant
            store.wf(),
            i <= ops@.len(),
            ov == op_views(ops@),
            m0 == old(store).messages(),
            item_views(items@) == staged(m0, ov.take(i as int)).1,
            store.messages() == staged(m0, ov.take(i as int)).0,
            store.reliable() == old(store).reliable(),
        decreases ops@.len() - i,
    {
        proof {
            assert(ov.take(i + 1).drop_last() =~= ov.take(i as int));
            assert(ov.take(i + 1).last() == ops@[i as int]@);
        }
        let op = &ops[i];
        let snapshot = match store.get_message(op.message_id()) {
            Ok(o) => o,
            Err(e) => {
                return Err(StageError::Store(e));
            },
        };
        match snapshot {
            Some(m) => {
                let ghost before = item_views(items@);
                match begin_op(store, op) {
                    Ok(_) => {},
                    Err(e) => {
                        return Err(
                            match e {
                                OpError::Store(s) => StageError::Store(s),
                                _ => StageError::NothingFound,
                            },
                        );
                    },
                }
                items.push((op.clone(), m));
                assert(item_views(items@) =~= before.push((ops@[i as int]@, items@.last().1@)));
            },
            None => {},
        }
        i = i + 1;
    }
    proof {
        assert(ov.take(ops@.len() as int) =~= ov);
    }
    if items.len() == 0 {
        proof {
            lemma_staged_nothing(m0, ov);
        }
        Err(StageError::NothingFound)
    } else {
        Ok(items)
    }
}

} // verus!
verus! {

/// The snapshots of staged (operation, snapshot) pairs, in order.
pub open spec fn snapshots(items: Seq<(OpView, MessageView)>) -> Seq<MessageView> {
    items.map_values(|p: (OpView, MessageView)| p.1)
}

/// An operation leaves every other message alone.
proof fn lemma_applied_elsewhere(map: Map<Seq<char>, MessageView>, op: OpView, x: Seq<char>)
    requires
        x != op_id(op),
    ensures
        applied(map, op).contains_key(x) == map.contains_key(x),
        map.contains_key(x) ==> applied(map, op)[x] == map[x],
{
}

/// Operations keep every message under its own id.
proof fn lemma_applied_keyed(map: Map<Seq<char>, MessageView>, op: OpView)
    requires
        keyed_by_id(map),
    ensures
        keyed_by_id(applied(map, op)),
{
    let a = applied(map, op);
    assert forall|k: Seq<char>| #[trigger] a.contains_key(k) implies a[k].summary.id == k by {
        if k != op_id(op) {
            lemma_applied_elsewhere(map, op, k);
        }
    }
}

/// Staging keeps messages under their own ids, leaves messages that no
/// operation names alone, and snapshots each kept operation's own message.
proof fn lemma_staged_shape(map: Map<Seq<char>, MessageView>, ops: Seq<OpView>)
    requires
        keyed_by_id(map),
    ensures
        keyed_by_id(staged(map, ops).0),
        forall|x: Seq<char>|
            (forall|i: int| 0 <= i < ops.len() ==> op_id(#[trigger] ops[i]) != x) ==> (#[trigger] staged(
                map,
                ops,
            ).0.contains_key(x) == map.contains_key(x) && (map.contains_key(x) ==> staged(map, ops).0[x]
                == map[x])),
        forall|j: int|
            0 <= j < staged(map, ops).1.len() ==> (#[trigger] staged(map, ops).1[j]).1.summary.id == op_id(
                staged(map, ops).1[j].0,
            ) && exists|i: int| 0 <= i < ops.len() && ops[i] == staged(map, ops).1[j].0,
    decreases ops.len(),
{
    if ops.len() > 0 {
        let p = ops.drop_last();
        let o = ops.last();
        lemma_staged_shape(map, p);
        let prev = staged(map, p);
        let k = op_id(o);
        if prev.0.contains_key(k) {
            lemma_applied_keyed(prev.0, o);
            assert forall|x: Seq<char>|
                (forall|i: int| 0 <= i < ops.len() ==> op_id(#[trigger] ops[i]) != x) implies (#[trigger] staged(
                map,
                ops,
            ).0.contains_key(x) == map.contains_key(x) && (map.contains_key(x) ==> staged(map, ops).0[x]
                == map[x])) by {
                assert(op_id(ops[ops.len() - 1]) != x);
                assert forall|i: int| 0 <= i < p.len() implies op_id(#[trigger] p[i]) != x by {
                    assert(p[i] == ops[i]);
                }
                lemma_applied_elsewhere(prev.0, o, x);
            }
            let items = staged(map, ops).1;
            assert forall|j: int| 0 <= j < items.len() implies (#[trigger] items[j]).1.summary.id == op_id(
                items[j].0,
            ) && exists|i: int| 0 <= i < ops.len() && ops[i] == items[j].0 by {
                if j < prev.1.len() {
                    assert(items[j] == prev.1[j]);
                    let i = choose|i: int| 0 <= i < p.len() && p[i] == prev.1[j].0;
                    assert(ops[i] == p[i]);
                } else {
                    assert(items[j] == (o, prev.0[k]));
                    assert(ops[ops.len() - 1] == o);
                }
            }
        } else {
            assert forall|x: Seq<char>|
                (forall|i: int| 0 <= i < ops.len() ==> op_id(#[trigger] ops[i]) != x) implies (#[trigger] staged(
                map,
                ops,
            ).0.contains_key(x) == map.contains_key(x) && (map.contains_key(x) ==> staged(map, ops).0[x]
                == map[x])) by {
                assert forall|i: int| 0 <= i < p.len() implies op_id(#[trigger] p[i]) != x by {
                    assert(p[i] == ops[i]);
                }
            }
            let items = staged(map, ops).1;
            assert forall|j: int| 0 <= j < items.len() implies (#[trigger] items[j]).1.summary.id == op_id(
                items[j].0,
            ) && exists|i: int| 0 <= i < ops.len() && ops[i] == items[j].0 by {
                let i = choose|i: int| 0 <= i < p.len() && p[i] == prev.1[j].0;
                assert(ops[i] == p[i]);
            }
        }
    }
}

/// Upserting a message with another id commutes with an operation.
proof fn lemma_upsert_commutes(map: Map<Seq<char>, MessageView>, op: OpView, s: MessageView)
    requires
        s.summary.id != op_id(op),
    ensures
        upsert_one(applied(map, op), s) == applied(upsert_one(map, s), op),
{
    let k = op_id(op);
    let j = s.summary.id;
    lemma_applied_elsewhere(map, op, j);
    let u = upsert_one(map, s);
    assert(u.contains_key(k) == map.contains_key(k));
    assert(map.contains_key(k) ==> u[k] == map[k]);
    let lhs = upsert_one(applied(map, op), s);
    let rhs = applied(u, op);
    assert forall|x: Seq<char>| #[trigger] lhs.contains_key(x) == rhs.contains_key(x) by {
        if x != k {
            lemma_applied_elsewhere(u, op, x);
            lemma_applied_elsewhere(map, op, x);
        }
    }
    assert forall|x: Seq<char>| lhs.contains_key(x) implies #[trigger] lhs[x] == rhs[x] by {
        if x != k {
            lemma_applied_elsewhere(u, op, x);
            lemma_applied_elsewhere(map, op, x);
        }
    }
    assert(lhs =~= rhs);
}

/// Upserting messages none of which has the operation's id commutes with it.
proof fn lemma_upserted_commutes(map: Map<Seq<char>, MessageView>, op: OpView, ss: Seq<MessageView>)
    requires
        forall|i: int| 0 <= i < ss.len() ==> (#[trigger] ss[i]).summary.id != op_id(op),
    ensures
        upserted(applied(map, op), ss) == applied(upserted(map, ss), op),
    decreases ss.len(),
{
    if ss.len() > 0 {
        let p = ss.drop_last();
        assert forall|i: int| 0 <= i < p.len() implies (#[trigger] p[i]).summary.id != op_id(op) by {
            assert(p[i] == ss[i]);
        }
        lemma_upserted_commutes(map, op, p);
        assert(ss[ss.len() - 1] == ss.last());
        lemma_upsert_commutes(upserted(map, p), op, ss.last());
    }
}

/// Undoing a queued bulk action, by upserting its snapshots in order, gives
/// back the messages exactly as they were before it was queued, when its
/// operations name distinct messages. (A category change on a summary that
/// a partial event blanked is not undone this way: an upsert of such a
/// summary keeps the stored categories.)
pub proof fn law_bulk_undo_restores(map: Map<Seq<char>, MessageView>, ops: Seq<OpView>)
    requires
        keyed_by_id(map),
        forall|i: int, j: int| 0 <= i < j < ops.len() ==> op_id(#[trigger] ops[i]) != op_id(#[trigger] ops[j]),
        forall|i: int|
            0 <= i < ops.len() && (#[trigger] ops[i]) is SetCategories && map.contains_key(op_id(ops[i]))
                ==> !crate::store::partial_event(map[op_id(ops[i])].summary),
    ensures
        upserted(staged(map, ops).0, snapshots(staged(map, ops).1)) == map,
    decreases ops.len(),
{
    if ops.len() > 0 {
        let p = ops.drop_last();
        let o = ops.last();
        let k = op_id(o);
        assert(o == ops[ops.len() - 1]);
        assert forall|i: int, j: int| 0 <= i < j < p.len() implies op_id(#[trigger] p[i]) != op_id(
            #[trigger] p[j],
        ) by {
            assert(p[i] == ops[i] && p[j] == ops[j]);
        }
        assert forall|i: int|
            0 <= i < p.len() && (#[trigger] p[i]) is SetCategories && map.contains_key(op_id(p[i])) implies !crate::store::partial_event(
            map[op_id(p[i])].summary,
        ) by {
            assert(p[i] == ops[i]);
        }
        law_bulk_undo_restores(map, p);
        lemma_staged_shape(map, p);
        let prev = staged(map, p);
        assert forall|i: int| 0 <= i < p.len() implies op_id(#[trigger] p[i]) != k by {
            assert(p[i] == ops[i]);
        }
        if prev.0.contains_key(k) {
            let ss = snapshots(prev.1);
            assert forall|i: int| 0 <= i < ss.len() implies (#[trigger] ss[i]).summary.id != k by {
                assert(ss[i] == prev.1[i].1);
                let w = choose|w: int| 0 <= w < p.len() && p[w] == prev.1[i].0;
                assert(op_id(p[w]) != k);
            }
            lemma_upserted_commutes(prev.0, o, ss);
            let items = staged(map, ops).1;
            assert(items == prev.1.push((o, prev.0[k])));
            assert(snapshots(items) =~= ss.push(prev.0[k]));
            assert(snapshots(items).drop_last() =~= ss);
            crate::ops::law_snapshot_restore_undoes(map, o);
        }
    }
}

} // verus!
verus! {

/// Undo a queued bulk action: put every snapshot back (in order).
pub fn undo_bulk<S: MailStore>(store: &mut S, items: &Vec<(MailOp, Message)>) -> (r: Result<(), MailStoreError>)
    requires
        old(store).wf(),
    ensures
        final(store).wf(),
        r is Ok ==> final(store).messages() == upserted(old(store).messages(), snapshots(item_views(items@))),
        old(store).reliable() ==> r is Ok,
        final(store).reliable() == old(store).reliable(),
{
    let ghost sv = snapshots(item_views(items@));
    let mut snaps: Vec<Message> = Vec::new();
    let mut i: usize = 0;
    while i < items.len()
        invariant
            i <= items@.len(),
            sv == snapshots(item_views(items@)),
            message_views(snaps@) == sv.take(i as int),
        decreases items@.len() - i,
    {
        let m = clone_message(&items[i].1);
        let ghost before = message_views(snaps@);
        snaps.push(m);
        proof {
            assert(sv[i as int] == items@[i as int].1@);
            assert(message_views(snaps@) =~= before.push(m@));
            assert(sv.take(i + 1) =~= sv.take(i as int).push(sv[i as int]));
        }
        i = i + 1;
    }
    assert(sv.take(items@.len() as int) =~= sv);
    store.upsert_messages(snaps.as_slice())
}

} // verus!
verus! {

/// What a `$batch` sub-request asks the server to set is what the
/// optimistic local change already wrote: the read state, the flag status,
/// the categories, the Focused/Other class, or the destination folder of
/// the message, each as the JSON value the server expects.
pub proof fn law_batch_body_matches_local_change(map: Map<Seq<char>, MessageView>, index: usize, op: OpView)
    requires
        map.contains_key(op_id(op)),
    ensures
        ({
            let after = applied(map, op)[op_id(op)];
            let body = sub_for(index, op).body;
            &&& op is SetRead ==> body == Some(
                if after.summary.is_read {
                    "{\"isRead\":true}"@
                } else {
                    "{\"isRead\":false}"@
                },
            )
            &&& op is SetFlag ==> body == Some("{\"flag\":{\"flagStatus\":\""@ + after.summary.flag_status + "\"}}"@)
            &&& op is SetInference ==> body == Some(
                "{\"inferenceClassification\":\""@ + after.summary.inference_classification + "\"}"@,
            )
            &&& op is SetCategories ==> body == Some("{\"categories\":"@ + json_string_array(after.categories) + "}"@)
            &&& op is Move ==> body == Some("{\"destinationId\":"@ + json_string(after.summary.folder_id) + "}"@)
            &&& op is HardDelete ==> body is None && !applied(map, op).contains_key(op_id(op))
        }),
        op matches OpView::SetRead { is_read, .. } ==> sub_for(index, op).body == Some(
            if is_read {
                "{\"isRead\":true}"@
            } else {
                "{\"isRead\":false}"@
            },
        ),
        op matches OpView::SetFlag { flagged, .. } ==> sub_for(index, op).body == Some(
            if flagged {
                "{\"flag\":{\"flagStatus\":\"flagged\"}}"@
            } else {
                "{\"flag\":{\"flagStatus\":\"notFlagged\"}}"@
            },
        ),
        op matches OpView::SetInference { focused, .. } ==> sub_for(index, op).body == Some(
            if focused {
                "{\"inferenceClassification\":\"focused\"}"@
            } else {
                "{\"inferenceClassification\":\"other\"}"@
            },
        ),
{
    reveal_strlit("{\"isRead\":");
    reveal_strlit("true");
    reveal_strlit("false");
    reveal_strlit("}");
    reveal_strlit("{\"isRead\":true}");
    reveal_strlit("{\"isRead\":false}");
    reveal_strlit("{\"flag\":{\"flagStatus\":\"");
    reveal_strlit("\"}}");
    reveal_strlit("flagged");
    reveal_strlit("notFlagged");
    reveal_strlit("{\"flag\":{\"flagStatus\":\"flagged\"}}");
    reveal_strlit("{\"flag\":{\"flagStatus\":\"notFlagged\"}}");
    reveal_strlit("{\"inferenceClassification\":\"");
    reveal_strlit("\"}");
    reveal_strlit("focused");
    reveal_strlit("other");
    reveal_strlit("{\"inferenceClassification\":\"focused\"}");
    reveal_strlit("{\"inferenceClassification\":\"other\"}");
    match op {
        OpView::SetRead { is_read, .. } => {
            assert("{\"isRead\":"@ + "true"@ + "}"@ =~= "{\"isRead\":true}"@);
            assert("{\"isRead\":"@ + "false"@ + "}"@ =~= "{\"isRead\":false}"@);
        },
        OpView::SetFlag { .. } => {
            assert("{\"flag\":{\"flagStatus\":\""@ + "flagged"@ + "\"}}"@ =~= "{\"flag\":{\"flagStatus\":\"flagged\"}}"@);
            assert("{\"flag\":{\"flagStatus\":\""@ + "notFlagged"@ + "\"}}"@
                =~= "{\"flag\":{\"flagStatus\":\"notFlagged\"}}"@);
        },
        OpView::SetInference { .. } => {
            assert("{\"inferenceClassification\":\""@ + "focused"@ + "\"}"@
                =~= "{\"inferenceClassification\":\"focused\"}"@);
            assert("{\"inferenceClassification\":\""@ + "other"@ + "\"}"@
                =~= "{\"inferenceClassification\":\"other\"}"@);
        },
        _ => {},
    }
}

} // verus!
verus! {

/// Every `$batch` sub-request targets the operation's own message, keeps
/// its index, and uses the method Graph wants: PATCH for the state changes,
/// POST to `/move` for a move, DELETE for a hard delete.
pub proof fn law_batch_request_targets_the_message(index: usize, op: OpView)
    ensures
        sub_for(index, op).index == index,
        !(op is Move) ==> sub_for(index, op).url == "/me/messages/"@ + op_id(op),
        op is Move ==> sub_for(index, op).url == "/me/messages/"@ + op_id(op) + "/move"@,
        (op is SetRead || op is SetFlag || op is SetCategories || op is SetInference) ==> sub_for(index, op).method
            == "PATCH"@,
        op is Move ==> sub_for(index, op).method == "POST"@,
        op is HardDelete ==> sub_for(index, op).method == "DELETE"@ && sub_for(index, op).body is None,
{
}

} // verus!
