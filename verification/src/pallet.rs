//! The ledger state and its well-formedness invariant.
//!
//! A `Pallet` holds the five persistent tables as explicit state: the
//! next-class-id counter, the per-class next-token-id counters, the class
//! records, the token records, and the per-(account, token) ownership
//! records. The lifecycle operations in `ops` are the only ways the library
//! ever mutates a `Pallet`.

use vstd::prelude::*;
use crate::kv::{kv_distinct, kv_find, kv_has};
use crate::tally::{count_in_class, shares_sum, ClassEntry, OwnerEntry, TokenEntry};
use crate::types::{AccountId, ClassId, ClassInfo, TokenByOwnerData, TokenId, TokenInfo};

verus! {

/// The ledger: all persistent state of the token registry.
#[derive(Debug, Clone, PartialEq, Eq)]
pub struct Pallet {
    /// The next unused class identifier.
    pub next_class_id: ClassId,
    /// The next unused token identifier of each class. A class without an
    /// entry has never minted; its next token identifier is 0.
    pub next_token_ids: Vec<(ClassId, TokenId)>,
    /// The class records, keyed by class identifier.
    pub classes: Vec<ClassEntry>,
    /// The token records, keyed by (class identifier, token identifier).
    pub tokens: Vec<TokenEntry>,
    /// The ownership records, keyed by (account, (class, token)). A record
    /// holds the account's percentage of the token; absent means 0.
    pub tokens_by_owner: Vec<OwnerEntry>,
}

/// Strictly increasing, hence all elements distinct.
pub open spec fn strictly_sorted(s: Seq<AccountId>) -> bool {
    forall|i: int, j: int| #![trigger s[i], s[j]] 0 <= i < j < s.len() ==> s[i] < s[j]
}

impl Pallet {
    /// The stored record of class `c`, if the class is live.
    pub open spec fn class_spec(&self, c: ClassId) -> Option<ClassInfo> {
        kv_find(self.classes@, c)
    }

    /// Whether class `c` is live.
    pub open spec fn has_class(&self, c: ClassId) -> bool {
        kv_has(self.classes@, c)
    }

    /// The stored record of token `(c, t)`, if the token is live.
    pub open spec fn token_spec(&self, c: ClassId, t: TokenId) -> Option<TokenInfo> {
        kv_find(self.tokens@, (c, t))
    }

    /// Whether token `(c, t)` is live.
    pub open spec fn has_token(&self, c: ClassId, t: TokenId) -> bool {
        kv_has(self.tokens@, (c, t))
    }

    /// The next unused token identifier of class `c` (0 for a class that
    /// has no counter entry).
    pub open spec fn next_token_spec(&self, c: ClassId) -> TokenId {
        match kv_find(self.next_token_ids@, c) {
            Some(n) => n,
            None => 0,
        }
    }

    /// The ownership record of account `a` for token `(c, t)`, if present.
    pub open spec fn share_spec(&self, a: AccountId, c: ClassId, t: TokenId) -> Option<
        TokenByOwnerData,
    > {
        kv_find(self.tokens_by_owner@, (a, (c, t)))
    }

    /// The percentage of token `(c, t)` held by account `a`; 0 when no
    /// record is present.
    pub open spec fn percent_spec(&self, a: AccountId, c: ClassId, t: TokenId) -> int {
        match self.share_spec(a, c, t) {
            Some(d) => d.percent_owned as int,
            None => 0,
        }
    }

    /// Whether account `a` holds a (necessarily nonzero) share of token
    /// `(c, t)`.
    pub open spec fn owns(&self, a: AccountId, c: ClassId, t: TokenId) -> bool {
        self.share_spec(a, c, t) is Some
    }

    /// All four tables have pairwise distinct keys.
    pub open spec fn tables_distinct(&self) -> bool {
        &&& kv_distinct(self.classes@)
        &&& kv_distinct(self.tokens@)
        &&& kv_distinct(self.tokens_by_owner@)
        &&& kv_distinct(self.next_token_ids@)
    }

    /// Every token's owner list is sorted in strictly increasing order.
    pub open spec fn owners_sorted(&self) -> bool {
        forall|i: int|
            0 <= i < self.tokens@.len() ==> strictly_sorted(
                (#[trigger] self.tokens@[i]).1.owners@,
            )
    }

    /// Every ownership record carries a percentage between 1 and 100 and
    /// points at a live token whose owner list names the account.
    pub open spec fn records_match_tokens(&self) -> bool {
        forall|i: int|
            0 <= i < self.tokens_by_owner@.len() ==> {
                let e = #[trigger] self.tokens_by_owner@[i];
                &&& 1 <= e.1.percent_owned <= 100
                &&& match kv_find(self.tokens@, e.0.1) {
                    Some(info) => info.owners@.contains(e.0.0),
                    None => false,
                }
            }
    }

    /// Every account on a token's owner list holds an ownership record for
    /// that token.
    pub open spec fn owners_have_records(&self) -> bool {
        forall|i: int, j: int|
            0 <= i < self.tokens@.len() && 0 <= j < (#[trigger] self.tokens@[i]).1.owners@.len()
                ==> self.owns(
                #[trigger] self.tokens@[i].1.owners@[j],
                self.tokens@[i].0.0,
                self.tokens@[i].0.1,
            )
    }

    /// The recorded percentages of every live token sum to exactly 100.
    pub open spec fn shares_sum_ok(&self) -> bool {
        forall|i: int|
            0 <= i < self.tokens@.len() ==> shares_sum(
                self.tokens_by_owner@,
                (#[trigger] self.tokens@[i]).0.0,
                self.tokens@[i].0.1,
            ) == 100
    }

    /// Every class's total issuance equals its number of live tokens.
    pub open spec fn issuance_ok(&self) -> bool {
        forall|i: int|
            0 <= i < self.classes@.len() ==> (#[trigger] self.classes@[i]).1.total_issuance
                as int == count_in_class(self.tokens@, self.classes@[i].0)
    }

    /// Every live token belongs to a live class.
    pub open spec fn tokens_have_classes(&self) -> bool {
        forall|i: int|
            0 <= i < self.tokens@.len() ==> self.has_class((#[trigger] self.tokens@[i]).0.0)
    }

    /// Every token-id counter entry belongs to a live class.
    pub open spec fn counters_have_classes(&self) -> bool {
        forall|i: int|
            0 <= i < self.next_token_ids@.len() ==> self.has_class(
                (#[trigger] self.next_token_ids@[i]).0,
            )
    }

    /// Every live identifier lies below its counter, so counters only ever
    /// hand out fresh identifiers.
    pub open spec fn ids_fresh(&self) -> bool {
        &&& forall|i: int|
            0 <= i < self.classes@.len() ==> (#[trigger] self.classes@[i]).0
                < self.next_class_id
        &&& forall|i: int|
            0 <= i < self.tokens@.len() ==> (#[trigger] self.tokens@[i]).0.1
                < self.next_token_spec(self.tokens@[i].0.0)
    }

    /// Well-formedness of the ledger: the invariant that `new` establishes
    /// and every lifecycle operation preserves. It carries the two stated
    /// ledger invariants — each live token's owner list names exactly the
    /// accounts with a present (nonzero) ownership record and those records
    /// sum to 100, and each class's total issuance counts its live tokens —
    /// together with the structural facts that make the tables a ledger:
    /// distinct keys, sorted owner lists, and identifiers below their
    /// counters.
    pub open spec fn wf(&self) -> bool {
        &&& self.tables_distinct()
        &&& self.owners_sorted()
        &&& self.records_match_tokens()
        &&& self.owners_have_records()
        &&& self.shares_sum_ok()
        &&& self.issuance_ok()
        &&& self.tokens_have_classes()
        &&& self.counters_have_classes()
        &&& self.ids_fresh()
    }

    /// An empty ledger: no classes, no tokens, no records, all counters 0.
    pub fn new() -> (p: Pallet)
        ensures
            p.wf(),
            p.next_class_id == 0,
            p.classes@.len() == 0,
            p.tokens@.len() == 0,
            p.tokens_by_owner@.len() == 0,
            p.next_token_ids@.len() == 0,
    {
        Pallet {
            next_class_id: 0,
            next_token_ids: Vec::new(),
            classes: Vec::new(),
            tokens: Vec::new(),
            tokens_by_owner: Vec::new(),
        }
    }

    /// True exactly when `account` holds a nonzero share of `token`:
    /// an ownership record for the pair is present in the ledger.
    pub fn is_owner(&self, account: AccountId, token: (ClassId, TokenId)) -> (r: bool)
        ensures
            r == self.owns(account, token.0, token.1),
    {
        find_owner_index(&self.tokens_by_owner, account, token.0, token.1).is_some()
    }

    /// The next unused token identifier of class `class_id`.
    pub fn next_token_id(&self, class_id: ClassId) -> (r: TokenId)
        ensures
            r == self.next_token_spec(class_id),
    {
        match find_counter_index(&self.next_token_ids, class_id) {
            Some(i) => self.next_token_ids[i].1,
            None => 0,
        }
    }

    /// The stored record of class `class_id`, if the class is live.
    pub fn class_info(&self, class_id: ClassId) -> (r: Option<&ClassInfo>)
        ensures
            match r {
                Some(info) => self.class_spec(class_id) == Some(*info),
                None => self.class_spec(class_id) is None,
            },
    {
        match find_class_index(&self.classes, class_id) {
            Some(i) => Some(&self.classes[i].1),
            None => None,
        }
    }

    /// The stored record of token `token`, if the token is live.
    pub fn token_info(&self, token: (ClassId, TokenId)) -> (r: Option<&TokenInfo>)
        ensures
            match r {
                Some(info) => self.token_spec(token.0, token.1) == Some(*info),
                None => self.token_spec(token.0, token.1) is None,
            },
    {
        match find_token_index(&self.tokens, token.0, token.1) {
            Some(i) => Some(&self.tokens[i].1),
            None => None,
        }
    }

    /// The ownership record of `account` for `token`, if present.
    pub fn token_by_owner(&self, account: AccountId, token: (ClassId, TokenId)) -> (r: Option<
        TokenByOwnerData,
    >)
        ensures
            r == self.share_spec(account, token.0, token.1),
    {
        match find_owner_index(&self.tokens_by_owner, account, token.0, token.1) {
            Some(i) => Some(self.tokens_by_owner[i].1),
            None => None,
        }
    }
}


/// Whether `a` appears in an owner list.
pub(crate) fn owners_contains(v: &Vec<AccountId>, a: AccountId) -> (r: bool)
    ensures
        r == v@.contains(a),
{
    let mut i: usize = 0;
    while i < v.len()
        invariant
            i <= v@.len(),
            forall|j: int| 0 <= j < i ==> v@[j] != a,
        decreases v@.len() - i,
    {
        if v[i] == a {
            assert(v@[i as int] == a);
            return true;
        }
        i = i + 1;
    }
    assert(!v@.contains(a));
    false
}

/// Index of the entry for class `c`, scanning back to front so that the hit
/// is the entry `kv_find` reads.
pub(crate) fn find_class_index(v: &Vec<ClassEntry>, c: ClassId) -> (r: Option<usize>)
    ensures
        match r {
            Some(i) => i < v@.len() && v@[i as int].0 == c && kv_find(v@, c) == Some(
                v@[i as int].1,
            ),
            None => kv_find(v@, c) is None,
        },
{
    let mut j: usize = v.len();
    assert(v@.subrange(0, v@.len() as int) =~= v@);
    while j > 0
        invariant
            j <= v@.len(),
            kv_find(v@, c) == kv_find(v@.subrange(0, j as int), c),
        decreases j,
    {
        j = j - 1;
        let sub = Ghost(v@.subrange(0, j as int + 1));
        assert(sub@.last() == v@[j as int]);
        assert(sub@.drop_last() =~= v@.subrange(0, j as int));
        if v[j].0 == c {
            return Some(j);
        }
    }
    assert(v@.subrange(0, 0) =~= Seq::<ClassEntry>::empty());
    None
}

/// Index of the entry for token `(c, t)`, scanning back to front.
pub(crate) fn find_token_index(v: &Vec<TokenEntry>, c: ClassId, t: TokenId) -> (r: Option<usize>)
    ensures
        match r {
            Some(i) => i < v@.len() && v@[i as int].0 == (c, t) && kv_find(v@, (c, t)) == Some(
                v@[i as int].1,
            ),
            None => kv_find(v@, (c, t)) is None,
        },
{
    let mut j: usize = v.len();
    assert(v@.subrange(0, v@.len() as int) =~= v@);
    while j > 0
        invariant
            j <= v@.len(),
            kv_find(v@, (c, t)) == kv_find(v@.subrange(0, j as int), (c, t)),
        decreases j,
    {
        j = j - 1;
        let sub = Ghost(v@.subrange(0, j as int + 1));
        assert(sub@.last() == v@[j as int]);
        assert(sub@.drop_last() =~= v@.subrange(0, j as int));
        let (kc, kt) = v[j].0;
        if kc == c && kt == t {
            assert(v@[j as int].0 == (c, t));
            return Some(j);
        }
        assert(v@[j as int].0 != (c, t));
    }
    assert(v@.subrange(0, 0) =~= Seq::<TokenEntry>::empty());
    None
}

/// Index of the ownership record of account `a` for token `(c, t)`,
/// scanning back to front.
pub(crate) fn find_owner_index(v: &Vec<OwnerEntry>, a: AccountId, c: ClassId, t: TokenId) -> (r:
    Option<usize>)
    ensures
        match r {
            Some(i) => i < v@.len() && v@[i as int].0 == (a, (c, t)) && kv_find(v@, (a, (c, t)))
                == Some(v@[i as int].1),
            None => kv_find(v@, (a, (c, t))) is None,
        },
{
    let mut j: usize = v.len();
    assert(v@.subrange(0, v@.len() as int) =~= v@);
    while j > 0
        invariant
            j <= v@.len(),
            kv_find(v@, (a, (c, t))) == kv_find(v@.subrange(0, j as int), (a, (c, t))),
        decreases j,
    {
        j = j - 1;
        let sub = Ghost(v@.subrange(0, j as int + 1));
        assert(sub@.last() == v@[j as int]);
        assert(sub@.drop_last() =~= v@.subrange(0, j as int));
        let (ka, (kc, kt)) = v[j].0;
        if ka == a && kc == c && kt == t {
            assert(v@[j as int].0 == (a, (c, t)));
            return Some(j);
        }
        assert(v@[j as int].0 != (a, (c, t)));
    }
    assert(v@.subrange(0, 0) =~= Seq::<OwnerEntry>::empty());
    None
}

/// Index of the token-id counter entry of class `c`, scanning back to
/// front.
pub(crate) fn find_counter_index(v: &Vec<(ClassId, TokenId)>, c: ClassId) -> (r: Option<usize>)
    ensures
        match r {
            Some(i) => i < v@.len() && v@[i as int].0 == c && kv_find(v@, c) == Some(
                v@[i as int].1,
            ),
            None => kv_find(v@, c) is None,
        },
{
    let mut j: usize = v.len();
    assert(v@.subrange(0, v@.len() as int) =~= v@);
    while j > 0
        invariant
            j <= v@.len(),
            kv_find(v@, c) == kv_find(v@.subrange(0, j as int), c),
        decreases j,
    {
        j = j - 1;
        let sub = Ghost(v@.subrange(0, j as int + 1));
        assert(sub@.last() == v@[j as int]);
        assert(sub@.drop_last() =~= v@.subrange(0, j as int));
        if v[j].0 == c {
            return Some(j);
        }
    }
    assert(v@.subrange(0, 0) =~= Seq::<(ClassId, TokenId)>::empty());
    None
}

} // verus!
