//! Message rules: reordering, and the bodies a save sends. A reorder
//! renumbers the rules to a contiguous `1..=n` in the new order and writes
//! only the sequences that change. A save writes exactly the six writable
//! properties, with the complex objects (conditions, exceptions, actions)
//! carried whole as their serialized JSON; turning rule documents into that
//! JSON, unknown fields included, is the shell's serde work.
use vstd::prelude::*;
use crate::ops::{json_string, push_json_string};
use crate::text::{append_chars, chars_of, decimal, decimal_chars, join, join_chars, str_eq, string_of, views};

verus! {

/// What a reorder reads of a rule: its id and current sequence.
#[derive(Debug)]
pub struct RuleSlot {
    pub id: Option<String>,
    pub sequence: Option<i32>,
}

/// The stored sequence of rule `id` (the last rule carrying that id wins),
/// or `None` when no rule has it.
pub open spec fn current_sequence(rules: Seq<RuleSlot>, id: Seq<char>) -> Option<Option<i32>>
    decreases rules.len(),
{
    if rules.len() == 0 {
        None
    } else {
        let r = rules.last();
        if r.id is Some && r.id->0@ == id {
            Some(r.sequence)
        } else {
            current_sequence(rules.drop_last(), id)
        }
    }
}

/// The (id, new sequence) writes for `order`: position `i` wants sequence
/// `i + 1`; known rules already there, and unknown ids, get no write.
pub open spec fn sequence_writes(rules: Seq<RuleSlot>, order: Seq<Seq<char>>) -> Seq<(Seq<char>, i32)>
    decreases order.len(),
{
    if order.len() == 0 {
        Seq::empty()
    } else {
        let i = order.len() - 1;
        let want = (i + 1) as i32;
        let rest = sequence_writes(rules, order.drop_last());
        match current_sequence(rules, order[i]) {
            Some(seq) => if seq != Some(want) {
                rest.push((order[i], want))
            } else {
                rest
            },
            None => rest,
        }
    }
}

pub open spec fn write_views(v: Seq<(String, i32)>) -> Seq<(Seq<char>, i32)> {
    v.map_values(|p: (String, i32)| (p.0@, p.1))
}

fn current_of(rules: &[RuleSlot], id: &str) -> (r: Option<Option<i32>>)
    ensures
        r == current_sequence(rules@, id@),
{
    let mut k: usize = rules.len();
    assert(rules@.take(k as int) =~= rules@);
    while k > 0
        invariant
            k <= rules@.len(),
            current_sequence(rules@, id@) == current_sequence(rules@.take(k as int), id@),
        decreases k,
    {
        proof {
            assert(rules@.take(k as int).drop_last() =~= rules@.take(k - 1));
            assert(rules@.take(k as int).last() == rules@[k - 1]);
        }
        let hit = match &rules[k - 1].id {
            Some(x) => str_eq(x.as_str(), id),
            None => false,
        };
        if hit {
            return Some(rules[k - 1].sequence);
        }
        k = k - 1;
    }
    assert(rules@.take(0) =~= Seq::<RuleSlot>::empty());
    None
}

/// Renumber to a contiguous `1..=n` in `new_order`, returning only the
/// (id, new sequence) pairs that change. Ids missing from `rules` are left
/// alone.
pub fn sequence_patches(rules: &[RuleSlot], new_order: &[String]) -> (r: Vec<(String, i32)>)
    ensures
        write_views(r@) == sequence_writes(rules@, crate::store::string_views(new_order@)),
{
    let ghost ov = crate::store::string_views(new_order@);
    let mut out: Vec<(String, i32)> = Vec::new();
    let mut i: usize = 0;
    while i < new_order.len()
        invariant
            i <= new_order@.len(),
            ov == crate::store::string_views(new_order@),
            write_views(out@) == sequence_writes(rules@, ov.take(i as int)),
        decreases new_order@.len() - i,
    {
        proof {
            assert(ov.take(i + 1).drop_last() =~= ov.take(i as int));
            assert(ov.take(i + 1)[i as int] == new_order@[i as int]@);
        }
        #[verifier::truncate]
        let want: i32 = (i + 1) as i32;
        let ghost prev = write_views(out@);
        match current_of(rules, new_order[i].as_str()) {
            Some(seq) => {
                let same = match seq {
                    Some(s) => s == want,
                    None => false,
                };
                if !same {
                    out.push((new_order[i].clone(), want));
                    assert(write_views(out@) =~= prev.push((new_order@[i as int]@, want)));
                }
            },
            None => {},
        }
        i = i + 1;
    }
    assert(ov.take(ov.len() as int) =~= ov);
    out
}

/// Renumbering rules that already sit in the order asked for writes
/// nothing.
pub proof fn law_renumbering_twice_is_a_noop(rules: Seq<RuleSlot>, order: Seq<Seq<char>>)
    requires
        forall|i: int|
            0 <= i < order.len() ==> #[trigger] current_sequence(rules, order[i]) is None || current_sequence(
                rules,
                order[i],
            ) == Some(Some((i + 1) as i32)),
    ensures
        sequence_writes(rules, order) == Seq::<(Seq<char>, i32)>::empty(),
    decreases order.len(),
{
    if order.len() > 0 {
        let p = order.drop_last();
        assert forall|i: int| 0 <= i < p.len() implies #[trigger] current_sequence(rules, p[i]) is None
            || current_sequence(rules, p[i]) == Some(Some((i + 1) as i32)) by {
            assert(p[i] == order[i]);
        }
        law_renumbering_twice_is_a_noop(rules, p);
        let i = order.len() - 1;
        assert(current_sequence(rules, order[i]) is None || current_sequence(rules, order[i]) == Some(
            Some((i + 1) as i32),
        ));
    }
}

} // verus!
verus! {

/// The writable properties of a message rule. The three complex objects are
/// held as the JSON text they serialize to, which a save carries whole.
/// Server-owned fields (`id`, `hasError`, `isReadOnly`) and rule-level
/// extras have no place here: they are never written back.
#[derive(Debug, Clone)]
pub struct RuleDocument {
    pub display_name: Option<String>,
    pub sequence: Option<i32>,
    pub is_enabled: Option<bool>,
    /// Serialized `messageRulePredicates` object.
    pub conditions: Option<String>,
    /// Serialized `messageRulePredicates` object.
    pub exceptions: Option<String>,
    /// Serialized `messageRuleActions` value.
    pub actions: Option<String>,
}

/// `"key":value` in a JSON object.
pub open spec fn member(key: Seq<char>, value: Seq<char>) -> Seq<char> {
    json_string(key) + ":"@ + value
}

/// The member when there is a value, nothing otherwise.
pub open spec fn opt_member(key: Seq<char>, value: Option<Seq<char>>) -> Seq<Seq<char>> {
    match value {
        Some(v) => seq![member(key, v)],
        None => Seq::empty(),
    }
}

/// A JSON object of the given members, in order.
pub open spec fn json_object(members: Seq<Seq<char>>) -> Seq<char> {
    "{"@ + join(members, ","@) + "}"@
}

/// A JSON integer.
pub open spec fn int_text(n: int) -> Seq<char> {
    if n < 0 {
        "-"@ + decimal((-n) as nat)
    } else {
        decimal(n as nat)
    }
}

pub open spec fn bool_text(b: bool) -> Seq<char> {
    if b {
        "true"@
    } else {
        "false"@
    }
}

/// A predicates object that says something; an empty one (`{}`, every
/// predicate removed) counts as none.
pub open spec fn nonempty_predicates(p: Option<String>) -> Option<Seq<char>> {
    match p {
        Some(t) => if t@ == "{}"@ {
            None
        } else {
            Some(t@)
        },
        None => None,
    }
}

pub open spec fn or_null(v: Option<Seq<char>>) -> Seq<char> {
    match v {
        Some(t) => t,
        None => "null"@,
    }
}

/// Name, sequence and enabled flag, each when set.
pub open spec fn scalar_members(r: RuleDocument) -> Seq<Seq<char>> {
    opt_member("displayName"@, match r.display_name {
        Some(n) => Some(json_string(n@)),
        None => None,
    }) + opt_member("sequence"@, match r.sequence {
        Some(n) => Some(int_text(n as int)),
        None => None,
    }) + opt_member("isEnabled"@, match r.is_enabled {
        Some(b) => Some(bool_text(b)),
        None => None,
    })
}

pub open spec fn actions_members(r: RuleDocument) -> Seq<Seq<char>> {
    opt_member("actions"@, match r.actions {
        Some(a) => Some(a@),
        None => None,
    })
}

/// PATCH replaces a complex property whole, so conditions and exceptions are
/// always written: a rule the user emptied clears with an explicit `null`
/// rather than silently keeping the old predicates.
pub open spec fn patch_members(r: RuleDocument) -> Seq<Seq<char>> {
    scalar_members(r) + seq![
        member("conditions"@, or_null(nonempty_predicates(r.conditions))),
        member("exceptions"@, or_null(nonempty_predicates(r.exceptions))),
    ] + actions_members(r)
}

/// On create there is nothing to clear yet: empty predicates are omitted.
pub open spec fn create_members(r: RuleDocument) -> Seq<Seq<char>> {
    scalar_members(r) + opt_member("conditions"@, nonempty_predicates(r.conditions)) + opt_member(
        "exceptions"@,
        nonempty_predicates(r.exceptions),
    ) + actions_members(r)
}

fn member_text(key: &str, value: &[char]) -> (r: Vec<char>)
    ensures
        r@ == member(key@, value@),
{
    let mut r: Vec<char> = Vec::new();
    push_json_string(&mut r, key);
    r.push(':');
    append_chars(&mut r, value);
    assert(r@ =~= json_string(key@) + ":"@ + value@) by {
        reveal_strlit(":");
    }
    r
}

fn push_member(members: &mut Vec<Vec<char>>, key: &str, value: &[char])
    ensures
        views(final(members)@) == views(old(members)@) + seq![member(key@, value@)],
{
    let m = member_text(key, value);
    members.push(m);
    assert(views(members@) =~= views(old(members)@) + seq![member(key@, value@)]);
}

fn int_chars(n: i32) -> (r: Vec<char>)
    ensures
        r@ == int_text(n as int),
{
    if n < 0 {
        let mut r = chars_of("-");
        let mag: u64 = (-(n as i64)) as u64;
        let d = decimal_chars(mag);
        append_chars(&mut r, d.as_slice());
        r
    } else {
        decimal_chars(n as u64)
    }
}

fn bool_chars(b: bool) -> (r: Vec<char>)
    ensures
        r@ == bool_text(b),
{
    if b {
        chars_of("true")
    } else {
        chars_of("false")
    }
}

fn scalar_member_list(rule: &RuleDocument) -> (r: Vec<Vec<char>>)
    ensures
        views(r@) == scalar_members(*rule),
{
    let mut ms: Vec<Vec<char>> = Vec::new();
    match &rule.display_name {
        Some(n) => {
            let mut v: Vec<char> = Vec::new();
            push_json_string(&mut v, n.as_str());
            push_member(&mut ms, "displayName", v.as_slice());
        },
        None => {},
    }
    match rule.sequence {
        Some(n) => {
            let v = int_chars(n);
            push_member(&mut ms, "sequence", v.as_slice());
        },
        None => {},
    }
    match rule.is_enabled {
        Some(e) => {
            let v = bool_chars(e);
            push_member(&mut ms, "isEnabled", v.as_slice());
        },
        None => {},
    }
    assert(views(ms@) =~= scalar_members(*rule));
    ms
}

fn push_actions(ms: &mut Vec<Vec<char>>, rule: &RuleDocument)
    ensures
        views(final(ms)@) == views(old(ms)@) + actions_members(*rule),
{
    match &rule.actions {
        Some(a) => {
            let v = chars_of(a.as_str());
            push_member(ms, "actions", v.as_slice());
        },
        None => {
            assert(views(ms@) =~= views(old(ms)@) + actions_members(*rule));
        },
    }
}

/// The predicates text when it says something.
fn predicates_chars(p: &Option<String>) -> (r: Option<Vec<char>>)
    ensures
        match r {
            Some(v) => nonempty_predicates(*p) == Some(v@),
            None => nonempty_predicates(*p) is None,
        },
{
    match p {
        Some(t) => if str_eq(t.as_str(), "{}") {
            None
        } else {
            Some(chars_of(t.as_str()))
        },
        None => None,
    }
}

fn object_text(ms: &Vec<Vec<char>>) -> (r: String)
    ensures
        r@ == json_object(views(ms@)),
{
    let mut out = chars_of("{");
    let body = join_chars(ms, chars_of(",").as_slice());
    append_chars(&mut out, body.as_slice());
    append_chars(&mut out, chars_of("}").as_slice());
    string_of(out.as_slice())
}

/// The PATCH body of a rule save: the writable properties that are set,
/// conditions and exceptions always (`null` when empty), actions when set.
pub fn patch_body(rule: &RuleDocument) -> (r: String)
    ensures
        r@ == json_object(patch_members(*rule)),
{
    let mut ms = scalar_member_list(rule);
    let c = match predicates_chars(&rule.conditions) {
        Some(v) => v,
        None => chars_of("null"),
    };
    push_member(&mut ms, "conditions", c.as_slice());
    let e = match predicates_chars(&rule.exceptions) {
        Some(v) => v,
        None => chars_of("null"),
    };
    push_member(&mut ms, "exceptions", e.as_slice());
    push_actions(&mut ms, rule);
    assert(views(ms@) =~= patch_members(*rule));
    object_text(&ms)
}

/// The POST body of a new rule: the same writable set, with empty
/// predicates left out.
pub fn create_body(rule: &RuleDocument) -> (r: String)
    ensures
        r@ == json_object(create_members(*rule)),
{
    let mut ms = scalar_member_list(rule);
    let ghost s0 = views(ms@);
    match predicates_chars(&rule.conditions) {
        Some(v) => push_member(&mut ms, "conditions", v.as_slice()),
        None => {},
    }
    let ghost s1 = views(ms@);
    assert(s1 =~= s0 + opt_member("conditions"@, nonempty_predicates(rule.conditions)));
    match predicates_chars(&rule.exceptions) {
        Some(v) => push_member(&mut ms, "exceptions", v.as_slice()),
        None => {},
    }
    let ghost s2 = views(ms@);
    assert(s2 =~= s1 + opt_member("exceptions"@, nonempty_predicates(rule.exceptions)));
    push_actions(&mut ms, rule);
    assert(views(ms@) =~= create_members(*rule));
    object_text(&ms)
}

} // verus!
verus! {

/// The sequence the last write for `id` gives it, if any.
pub open spec fn write_for(writes: Seq<(Seq<char>, i32)>, id: Seq<char>) -> Option<i32>
    decreases writes.len(),
{
    if writes.len() == 0 {
        None
    } else if writes.last().0 == id {
        Some(writes.last().1)
    } else {
        write_for(writes.drop_last(), id)
    }
}

/// A rule after the writes: the sequence written for its id, if any.
pub open spec fn rule_after(r: RuleSlot, writes: Seq<(Seq<char>, i32)>) -> RuleSlot {
    match r.id {
        Some(x) => match write_for(writes, x@) {
            Some(n) => RuleSlot { id: r.id, sequence: Some(n) },
            None => r,
        },
        None => r,
    }
}

/// The rules after the writes are applied.
pub open spec fn rules_after(rules: Seq<RuleSlot>, writes: Seq<(Seq<char>, i32)>) -> Seq<RuleSlot> {
    rules.map_values(|r: RuleSlot| rule_after(r, writes))
}

proof fn lemma_current_after(rules: Seq<RuleSlot>, writes: Seq<(Seq<char>, i32)>, id: Seq<char>)
    ensures
        current_sequence(rules_after(rules, writes), id) == match current_sequence(rules, id) {
            Some(s) => Some(
                match write_for(writes, id) {
                    Some(n) => Some(n),
                    None => s,
                },
            ),
            None => None,
        },
    decreases rules.len(),
{
    if rules.len() > 0 {
        let p = rules.drop_last();
        lemma_current_after(p, writes, id);
        assert(rules_after(rules, writes).drop_last() =~= rules_after(p, writes));
        assert(rules_after(rules, writes).last() == rule_after(rules.last(), writes));
    }
}

/// Each write renumbers a listed rule to its place, and each listed rule
/// that is not at its place gets a write.
proof fn lemma_writes_shape(rules: Seq<RuleSlot>, order: Seq<Seq<char>>)
    ensures
        forall|m: int|
            0 <= m < sequence_writes(rules, order).len() ==> exists|k: int|
                0 <= k < order.len() && #[trigger] sequence_writes(rules, order)[m] == (order[k], (k + 1) as i32),
        forall|k: int|
            0 <= k < order.len() && (#[trigger] current_sequence(rules, order[k]) matches Some(s) && s != Some(
                (k + 1) as i32,
            )) ==> exists|m: int|
                0 <= m < sequence_writes(rules, order).len() && sequence_writes(rules, order)[m] == (
                    order[k],
                    (k + 1) as i32,
                ),
    decreases order.len(),
{
    if order.len() > 0 {
        let p = order.drop_last();
        lemma_writes_shape(rules, p);
        let w = sequence_writes(rules, order);
        let wp = sequence_writes(rules, p);
        let i = order.len() - 1;
        assert forall|m: int| 0 <= m < w.len() implies exists|k: int|
            0 <= k < order.len() && #[trigger] w[m] == (order[k], (k + 1) as i32) by {
            if m < wp.len() {
                assert(w[m] == wp[m]);
                let k = choose|k: int| 0 <= k < p.len() && wp[m] == (p[k], (k + 1) as i32);
                assert(order[k] == p[k]);
            } else {
                assert(w[m] == (order[i], (i + 1) as i32));
            }
        }
        assert forall|k: int|
            0 <= k < order.len() && (#[trigger] current_sequence(rules, order[k]) matches Some(s) && s != Some(
                (k + 1) as i32,
            )) implies exists|m: int| 0 <= m < w.len() && w[m] == (order[k], (k + 1) as i32) by {
            if k < p.len() {
                assert(order[k] == p[k]);
                assert(current_sequence(rules, p[k]) == current_sequence(rules, order[k]));
                let m = choose|m: int| 0 <= m < wp.len() && wp[m] == (p[k], (k + 1) as i32);
                assert(w[m] == wp[m]);
            } else {
                assert(w[w.len() - 1] == (order[i], (i + 1) as i32));
            }
        }
    }
}

proof fn lemma_write_for_single(writes: Seq<(Seq<char>, i32)>, id: Seq<char>, v: i32)
    requires
        forall|m: int| 0 <= m < writes.len() && (#[trigger] writes[m]).0 == id ==> writes[m].1 == v,
    ensures
        write_for(writes, id) == if exists|m: int| 0 <= m < writes.len() && (#[trigger] writes[m]).0 == id {
            Some(v)
        } else {
            None::<i32>
        },
    decreases writes.len(),
{
    if writes.len() > 0 {
        let p = writes.drop_last();
        assert forall|m: int| 0 <= m < p.len() && (#[trigger] p[m]).0 == id implies p[m].1 == v by {
            assert(p[m] == writes[m]);
        }
        lemma_write_for_single(p, id, v);
        if writes.last().0 != id {
            if exists|m: int| 0 <= m < writes.len() && (#[trigger] writes[m]).0 == id {
                let m = choose|m: int| 0 <= m < writes.len() && (#[trigger] writes[m]).0 == id;
                assert(m < p.len());
                assert(p[m] == writes[m]);
            }
            if exists|m: int| 0 <= m < p.len() && (#[trigger] p[m]).0 == id {
                let m = choose|m: int| 0 <= m < p.len() && (#[trigger] p[m]).0 == id;
                assert(writes[m] == p[m]);
            }
        } else {
            assert(writes[writes.len() - 1] == writes.last());
        }
    }
}

/// Applying the writes of a reorder to distinct listed ids puts every listed
/// rule at its place (sequence `i + 1` for position `i`), so renumbering the
/// result again writes nothing; rules not listed keep their sequence.
pub proof fn law_renumbering_puts_rules_in_place(rules: Seq<RuleSlot>, order: Seq<Seq<char>>)
    requires
        forall|a: int, b: int| 0 <= a < b < order.len() ==> #[trigger] order[a] != #[trigger] order[b],
    ensures
        forall|i: int|
            0 <= i < order.len() ==> #[trigger] current_sequence(
                rules_after(rules, sequence_writes(rules, order)),
                order[i],
            ) == match current_sequence(rules, order[i]) {
                Some(_) => Some(Some((i + 1) as i32)),
                None => None::<Option<i32>>,
            },
        forall|x: Seq<char>|
            (forall|i: int| 0 <= i < order.len() ==> order[i] != x) ==> #[trigger] current_sequence(
                rules_after(rules, sequence_writes(rules, order)),
                x,
            ) == current_sequence(rules, x),
        sequence_writes(rules_after(rules, sequence_writes(rules, order)), order) == Seq::<
            (Seq<char>, i32),
        >::empty(),
{
    let w = sequence_writes(rules, order);
    let after = rules_after(rules, w);
    lemma_writes_shape(rules, order);
    assert forall|i: int| 0 <= i < order.len() implies #[trigger] current_sequence(after, order[i]) == match current_sequence(
        rules,
        order[i],
    ) {
        Some(_) => Some(Some((i + 1) as i32)),
        None => None::<Option<i32>>,
    } by {
        let id = order[i];
        assert forall|m: int| 0 <= m < w.len() && (#[trigger] w[m]).0 == id implies w[m].1 == (i + 1) as i32 by {
            let k = choose|k: int| 0 <= k < order.len() && w[m] == (order[k], (k + 1) as i32);
            if k != i {
                assert(order[k] != order[i]);
            }
        }
        lemma_write_for_single(w, id, (i + 1) as i32);
        lemma_current_after(rules, w, id);
        match current_sequence(rules, id) {
            Some(s) => {
                if s != Some((i + 1) as i32) {
                    let m = choose|m: int| 0 <= m < w.len() && w[m] == (order[i], (i + 1) as i32);
                    assert(w[m].0 == id);
                }
            },
            None => {},
        }
    }
    assert forall|x: Seq<char>| (forall|i: int| 0 <= i < order.len() ==> order[i] != x) implies #[trigger] current_sequence(
        after,
        x,
    ) == current_sequence(rules, x) by {
        assert forall|m: int| 0 <= m < w.len() && (#[trigger] w[m]).0 == x implies w[m].1 == 0i32 by {
            let k = choose|k: int| 0 <= k < order.len() && w[m] == (order[k], (k + 1) as i32);
            assert(order[k] != x);
        }
        lemma_write_for_single(w, x, 0i32);
        assert(!exists|m: int| 0 <= m < w.len() && (#[trigger] w[m]).0 == x) by {
            if exists|m: int| 0 <= m < w.len() && (#[trigger] w[m]).0 == x {
                let m = choose|m: int| 0 <= m < w.len() && (#[trigger] w[m]).0 == x;
                let k = choose|k: int| 0 <= k < order.len() && w[m] == (order[k], (k + 1) as i32);
                assert(order[k] != x);
            }
        }
        lemma_current_after(rules, w, x);
    }
    law_renumbering_twice_is_a_noop(after, order);
}

} // verus!
