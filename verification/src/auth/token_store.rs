//! Refresh-token storage. The OS-keychain backend lives with the shell; the
//! trait seam lets a headless backend be swapped in, and
//! [`MemoryTokenStore`] is the verified in-memory one.
use vstd::prelude::*;
use crate::assoc::{keys_unique, lemma_to_map_char, lemma_to_map_push, lemma_to_map_remove, lemma_to_map_update, to_map};
use crate::text::str_eq;

verus! {

/// The keychain service name entries are filed under.
pub const KEYRING_SERVICE: &'static str = "com.minatolabs.spite";

#[derive(Debug)]
pub enum StoreError {
    Backend(String),
}

impl StoreError {
    /// The error's text (the backend's own message).
    pub fn message(&self) -> (r: String)
        ensures
            match self {
                StoreError::Backend(m) => r@ == m@,
            },
    {
        match self {
            StoreError::Backend(m) => m.clone(),
        }
    }
}

/// Refresh tokens by account (UPN).
pub trait TokenStore {
    /// The stored tokens by UPN. Stores that do not model their contents
    /// leave it unspecified.
    closed spec fn tokens(&self) -> Map<Seq<char>, Seq<char>> {
        vstd::pervasive::arbitrary()
    }

    /// Store (or rotate) the refresh token for `upn`.
    fn save_refresh_token(&mut self, upn: &str, token: &str) -> (r: Result<(), StoreError>)
        ensures
            r is Ok ==> final(self).tokens() == old(self).tokens().insert(upn@, token@),
    ;

    /// The stored refresh token for `upn`, if any.
    fn load_refresh_token(&self, upn: &str) -> (r: Result<Option<String>, StoreError>)
        ensures
            r matches Ok(o) ==> match o {
                Some(t) => self.tokens().contains_key(upn@) && t@ == self.tokens()[upn@],
                None => !self.tokens().contains_key(upn@),
            },
    ;

    /// Forget the token for `upn`; a missing entry is not an error.
    fn delete_refresh_token(&mut self, upn: &str) -> (r: Result<(), StoreError>)
        ensures
            r is Ok ==> final(self).tokens() == old(self).tokens().remove(upn@),
    ;
}

pub open spec fn entry_key() -> spec_fn((Seq<char>, Seq<char>)) -> Seq<char> {
    |e: (Seq<char>, Seq<char>)| e.0
}

pub open spec fn entry_views(v: Seq<(String, String)>) -> Seq<(Seq<char>, Seq<char>)> {
    v.map_values(|e: (String, String)| (e.0@, e.1@))
}

/// In-memory store: (upn, token) pairs with unique UPNs.
pub struct MemoryTokenStore {
    entries: Vec<(String, String)>,
}

impl MemoryTokenStore {
    #[verifier::type_invariant]
    spec fn unique_upns(&self) -> bool {
        keys_unique(entry_views(self.entries@), entry_key())
    }

    fn find(&self, upn: &str) -> (r: Option<usize>)
        ensures
            match r {
                Some(i) => i < self.entries@.len() && self.entries@[i as int].0@ == upn@,
                None => forall|i: int| 0 <= i < self.entries@.len() ==> (#[trigger] self.entries@[i]).0@ != upn@,
            },
    {
        let mut i: usize = 0;
        while i < self.entries.len()
            invariant
                i <= self.entries@.len(),
                forall|j: int| 0 <= j < i ==> (#[trigger] self.entries@[j]).0@ != upn@,
            decreases self.entries@.len() - i,
        {
            if str_eq(self.entries[i].0.as_str(), upn) {
                return Some(i);
            }
            i = i + 1;
        }
        None
    }
}

impl Default for MemoryTokenStore {
    fn default() -> (r: Self)
        ensures
            r.tokens() == Map::<Seq<char>, Seq<char>>::empty(),
    {
        let r = MemoryTokenStore { entries: Vec::new() };
        assert(entry_views(r.entries@) =~= Seq::<(Seq<char>, Seq<char>)>::empty());
        assert(r.tokens() =~= Map::<Seq<char>, Seq<char>>::empty());
        r
    }
}

impl TokenStore for MemoryTokenStore {
    closed spec fn tokens(&self) -> Map<Seq<char>, Seq<char>> {
        let m = to_map(entry_views(self.entries@), entry_key());
        Map::new(|k: Seq<char>| m.contains_key(k), |k: Seq<char>| m[k].1)
    }

    fn save_refresh_token(&mut self, upn: &str, token: &str) -> (r: Result<(), StoreError>)
        ensures
            r is Ok,
    {
        proof {
            use_type_invariant(&*self);
        }
        let ghost ev = entry_views(self.entries@);
        let ghost before = self.tokens();
        let e = (String::from_str(upn), String::from_str(token));
        match self.find(upn) {
            Some(i) => {
                proof {
                    lemma_to_map_update(ev, entry_key(), i as int, (upn@, token@));
                }
                let mut v: Vec<(String, String)> = Vec::new();
                std::mem::swap(&mut v, &mut self.entries);
                v.set(i, e);
                assert(entry_views(v@) =~= ev.update(i as int, (upn@, token@)));
                self.entries = v;
            },
            None => {
                proof {
                    lemma_to_map_char(ev, entry_key());
                    if to_map(ev, entry_key()).contains_key(upn@) {
                        let k = choose|k: int| 0 <= k < ev.len() && entry_key()(ev[k]) == upn@;
                        assert(ev[k].0 == self.entries@[k].0@);
                    }
                    lemma_to_map_push(ev, entry_key(), (upn@, token@));
                }
                let mut v: Vec<(String, String)> = Vec::new();
                std::mem::swap(&mut v, &mut self.entries);
                v.push(e);
                assert(entry_views(v@) =~= ev.push((upn@, token@)));
                self.entries = v;
            },
        }
        assert(self.tokens() =~= before.insert(upn@, token@));
        Ok(())
    }

    fn load_refresh_token(&self, upn: &str) -> (r: Result<Option<String>, StoreError>)
        ensures
            r is Ok,
    {
        proof {
            use_type_invariant(self);
        }
        let ghost ev = entry_views(self.entries@);
        proof {
            lemma_to_map_char(ev, entry_key());
        }
        match self.find(upn) {
            Some(i) => {
                assert(ev[i as int] == (self.entries@[i as int].0@, self.entries@[i as int].1@));
                Ok(Some(self.entries[i].1.clone()))
            },
            None => {
                proof {
                    if to_map(ev, entry_key()).contains_key(upn@) {
                        let k = choose|k: int| 0 <= k < ev.len() && entry_key()(ev[k]) == upn@;
                        assert(ev[k].0 == self.entries@[k].0@);
                    }
                }
                Ok(None)
            },
        }
    }

    fn delete_refresh_token(&mut self, upn: &str) -> (r: Result<(), StoreError>)
        ensures
            r is Ok,
    {
        proof {
            use_type_invariant(&*self);
        }
        let ghost ev = entry_views(self.entries@);
        let ghost before = self.tokens();
        proof {
            lemma_to_map_char(ev, entry_key());
        }
        match self.find(upn) {
            Some(i) => {
                proof {
                    lemma_to_map_remove(ev, entry_key(), i as int);
                }
                let mut v: Vec<(String, String)> = Vec::new();
                std::mem::swap(&mut v, &mut self.entries);
                v.remove(i);
                assert(entry_views(v@) =~= ev.remove(i as int));
                self.entries = v;
            },
            None => {
                proof {
                    if to_map(ev, entry_key()).contains_key(upn@) {
                        let k = choose|k: int| 0 <= k < ev.len() && entry_key()(ev[k]) == upn@;
                        assert(ev[k].0 == self.entries@[k].0@);
                    }
                }
            },
        }
        assert(self.tokens() =~= before.remove(upn@));
        Ok(())
    }
}

/// A load right after a save gives the saved token.
pub proof fn law_load_after_save(tokens: Map<Seq<char>, Seq<char>>, upn: Seq<char>, token: Seq<char>)
    ensures
        tokens.insert(upn, token).contains_key(upn),
        tokens.insert(upn, token)[upn] == token,
{
}

/// Rotation: a newer token replaces the stored one.
pub proof fn law_rotation_keeps_newest(
    tokens: Map<Seq<char>, Seq<char>>,
    upn: Seq<char>,
    first: Seq<char>,
    second: Seq<char>,
)
    ensures
        tokens.insert(upn, first).insert(upn, second)[upn] == second,
        tokens.insert(upn, first).insert(upn, second) == tokens.insert(upn, second),
{
    assert(tokens.insert(upn, first).insert(upn, second) =~= tokens.insert(upn, second));
}

/// After a delete nothing is stored for the account, and deleting again
/// changes nothing.
pub proof fn law_delete_then_load(tokens: Map<Seq<char>, Seq<char>>, upn: Seq<char>)
    ensures
        !tokens.remove(upn).contains_key(upn),
        tokens.remove(upn).remove(upn) == tokens.remove(upn),
{
    assert(tokens.remove(upn).remove(upn) =~= tokens.remove(upn));
}

/// Tokens of other accounts are untouched by a save or a delete.
pub proof fn law_other_accounts_untouched(
    tokens: Map<Seq<char>, Seq<char>>,
    upn: Seq<char>,
    other: Seq<char>,
    token: Seq<char>,
)
    requires
        upn != other,
    ensures
        tokens.insert(upn, token).contains_key(other) == tokens.contains_key(other),
        tokens.remove(upn).contains_key(other) == tokens.contains_key(other),
        tokens.contains_key(other) ==> tokens.insert(upn, token)[other] == tokens[other]
            && tokens.remove(upn)[other] == tokens[other],
{
}

/// One call that changes a token store.
pub enum TokenCall {
    Save { upn: Seq<char>, token: Seq<char> },
    Delete { upn: Seq<char> },
}

/// The tokens after a history of successful calls, in order.
pub open spec fn replayed(tokens: Map<Seq<char>, Seq<char>>, calls: Seq<TokenCall>) -> Map<Seq<char>, Seq<char>>
    decreases calls.len(),
{
    if calls.len() == 0 {
        tokens
    } else {
        let m = replayed(tokens, calls.drop_last());
        match calls.last() {
            TokenCall::Save { upn, token } => m.insert(upn, token),
            TokenCall::Delete { upn } => m.remove(upn),
        }
    }
}

/// What the latest call for `upn` left: the token it saved, or nothing
/// after a delete; `None` when no call names `upn`.
pub open spec fn latest_for(calls: Seq<TokenCall>, upn: Seq<char>) -> Option<Option<Seq<char>>>
    decreases calls.len(),
{
    if calls.len() == 0 {
        None
    } else {
        match calls.last() {
            TokenCall::Save { upn: u, token } => if u == upn {
                Some(Some(token))
            } else {
                latest_for(calls.drop_last(), upn)
            },
            TokenCall::Delete { upn: u } => if u == upn {
                Some(None)
            } else {
                latest_for(calls.drop_last(), upn)
            },
        }
    }
}

/// The token stored for `upn`, if any.
pub open spec fn token_of(tokens: Map<Seq<char>, Seq<char>>, upn: Seq<char>) -> Option<Seq<char>> {
    if tokens.contains_key(upn) {
        Some(tokens[upn])
    } else {
        None
    }
}

/// Over any history of saves and deletes, a load gives the token of the
/// latest save for that account unless a later delete removed it; calls for
/// other accounts have no effect, and an account no call names keeps what
/// it had.
pub proof fn law_load_after_history(tokens: Map<Seq<char>, Seq<char>>, calls: Seq<TokenCall>, upn: Seq<char>)
    ensures
        token_of(replayed(tokens, calls), upn) == match latest_for(calls, upn) {
            Some(o) => o,
            None => token_of(tokens, upn),
        },
    decreases calls.len(),
{
    if calls.len() > 0 {
        law_load_after_history(tokens, calls.drop_last(), upn);
    }
}

} // verus!
