//! The ledger's stated laws, as proof functions.
//!
//! Each law holds of every well-formed ledger, and every lifecycle
//! operation both requires and ensures well-formedness, so the laws hold
//! throughout any sequence of operations starting from `Pallet::new`.

use vstd::prelude::*;
use crate::kv::lemma_kv_find_exists;
use crate::pallet::Pallet;
use crate::tally::{count_in_class, shares_sum};
use crate::types::{AccountId, ClassId, TokenId};

verus! {

/// The two ownership views of a live token always agree: the token's owner
/// list names exactly the accounts holding a present (nonzero) ownership
/// record for it, and those records' percentages sum to exactly 100.
pub proof fn lemma_owner_views_agree(p: Pallet, c: ClassId, t: TokenId)
    requires
        p.wf(),
        p.has_token(c, t),
    ensures
        p.token_spec(c, t) matches Some(info) ==> forall|a: AccountId|
            info.owners@.contains(a) <==> p.owns(a, c, t),
        shares_sum(p.tokens_by_owner@, c, t) == 100,
{
    lemma_kv_find_exists(p.tokens@, (c, t));
    let i = choose|i: int| 0 <= i < p.tokens@.len() && p.tokens@[i].0 == (c, t);
    crate::kv::lemma_kv_find_index(p.tokens@, i);
    assert(p.tokens@[i].0.0 == c && p.tokens@[i].0.1 == t);
    assert(shares_sum(p.tokens_by_owner@, c, t) == 100);
    let info = p.token_spec(c, t)->Some_0;
    assert forall|a: AccountId| info.owners@.contains(a) <==> p.owns(a, c, t) by {
        if info.owners@.contains(a) {
            let j = choose|j: int| 0 <= j < info.owners@.len() && info.owners@[j] == a;
            assert(p.owns(p.tokens@[i].1.owners@[j], p.tokens@[i].0.0, p.tokens@[i].0.1));
        }
        if p.owns(a, c, t) {
            lemma_kv_find_exists(p.tokens_by_owner@, (a, (c, t)));
            let k = choose|k: int|
                0 <= k < p.tokens_by_owner@.len() && p.tokens_by_owner@[k].0 == (a, (c, t));
            crate::kv::lemma_kv_find_index(p.tokens_by_owner@, k);
            assert(p.tokens_by_owner@[k].0.1 == (c, t));
        }
    }
}

/// A class's total issuance always counts exactly its live tokens.
pub proof fn lemma_issuance_counts_tokens(p: Pallet, c: ClassId)
    requires
        p.wf(),
        p.has_class(c),
    ensures
        p.class_spec(c) matches Some(info) ==> info.total_issuance as int == count_in_class(
            p.tokens@,
            c,
        ),
{
    lemma_kv_find_exists(p.classes@, c);
    let i = choose|i: int| 0 <= i < p.classes@.len() && p.classes@[i].0 == c;
    crate::kv::lemma_kv_find_index(p.classes@, i);
}

/// Every live class identifier lies strictly below the next-class-id
/// counter.
pub proof fn lemma_live_class_ids_below_counter(p: Pallet, c: ClassId)
    requires
        p.wf(),
        p.has_class(c),
    ensures
        c < p.next_class_id,
{
    lemma_kv_find_exists(p.classes@, c);
    let i = choose|i: int| 0 <= i < p.classes@.len() && p.classes@[i].0 == c;
    assert(p.classes@[i].0 < p.next_class_id);
}

/// Every live token identifier lies strictly below its class's
/// next-token-id counter.
pub proof fn lemma_live_token_ids_below_counter(p: Pallet, c: ClassId, t: TokenId)
    requires
        p.wf(),
        p.has_token(c, t),
    ensures
        t < p.next_token_spec(c),
{
    lemma_kv_find_exists(p.tokens@, (c, t));
    let i = choose|i: int| 0 <= i < p.tokens@.len() && p.tokens@[i].0 == (c, t);
    assert(p.tokens@[i].0.1 < p.next_token_spec(p.tokens@[i].0.0));
}

/// Class identifiers are never reused, even across failed or burned
/// allocations. `create_class` returns the counter's current value, every
/// operation's contract keeps `next_class_id` from decreasing, and by
/// `lemma_live_class_ids_below_counter` any identifier ever allocated lies
/// below the counter — so a later `create_class` can never return it
/// again.
pub proof fn lemma_class_id_never_reused(earlier: Pallet, later: Pallet, id: ClassId)
    requires
        id < earlier.next_class_id,
        earlier.next_class_id <= later.next_class_id,
    ensures
        id != later.next_class_id,
{
}

/// Token identifiers are never reused within a class, even across failed
/// or burned allocations. `mint` returns the class's counter, the
/// operations' contracts keep that counter from decreasing while the class
/// lives (only `destroy_class` drops it, and a destroyed class identifier
/// never comes back), and by `lemma_live_token_ids_below_counter` any
/// identifier ever allocated lies below the counter — so a later `mint`
/// into the same class can never return it again.
pub proof fn lemma_token_id_never_reused(earlier: Pallet, later: Pallet, c: ClassId, t: TokenId)
    requires
        t < earlier.next_token_spec(c),
        earlier.next_token_spec(c) <= later.next_token_spec(c),
    ensures
        t != later.next_token_spec(c),
{
}

} // verus!
