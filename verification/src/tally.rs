//! Sums and counts over the ledger's tables.
//!
//! `shares_sum` adds up the percentage records of one token, and
//! `count_in_class` counts the live tokens of one class. The lemmas say how
//! the two change under `push`, `update` and `remove` of a single entry.

use vstd::prelude::*;
use crate::types::{AccountId, ClassId, ClassInfo, TokenByOwnerData, TokenId, TokenInfo};

verus! {

/// One entry of the ownership table: ((account, (class, token)), record).
pub type OwnerEntry = ((AccountId, (ClassId, TokenId)), TokenByOwnerData);

/// One entry of the token table: ((class, token), token record).
pub type TokenEntry = ((ClassId, TokenId), TokenInfo);

/// One entry of the class table: (class, class record).
pub type ClassEntry = (ClassId, ClassInfo);

/// What one ownership entry contributes to the share total of token
/// `(c, t)`: its percentage if it is a record of that token, 0 otherwise.
pub open spec fn share_contrib(e: OwnerEntry, c: ClassId, t: TokenId) -> int {
    if e.0.1.0 == c && e.0.1.1 == t {
        e.1.percent_owned as int
    } else {
        0
    }
}

/// The sum of all recorded percentages of token `(c, t)`.
pub open spec fn shares_sum(s: Seq<OwnerEntry>, c: ClassId, t: TokenId) -> int
    decreases s.len(),
{
    if s.len() == 0 {
        0
    } else {
        shares_sum(s.drop_last(), c, t) + share_contrib(s.last(), c, t)
    }
}

/// What one token entry contributes to the token count of class `c`.
pub open spec fn class_contrib(e: TokenEntry, c: ClassId) -> int {
    if e.0.0 == c {
        1
    } else {
        0
    }
}

/// The number of live tokens of class `c`.
pub open spec fn count_in_class(s: Seq<TokenEntry>, c: ClassId) -> int
    decreases s.len(),
{
    if s.len() == 0 {
        0
    } else {
        count_in_class(s.drop_last(), c) + class_contrib(s.last(), c)
    }
}

/// Appending an entry adds its contribution to the share total.
pub proof fn lemma_shares_sum_push(s: Seq<OwnerEntry>, e: OwnerEntry, c: ClassId, t: TokenId)
    ensures
        shares_sum(s.push(e), c, t) == shares_sum(s, c, t) + share_contrib(e, c, t),
{
    assert(s.push(e).last() == e);
    assert(s.push(e).drop_last() =~= s);
}

/// Overwriting the entry at `i` swaps its contribution in the share total.
pub proof fn lemma_shares_sum_update(
    s: Seq<OwnerEntry>,
    i: int,
    e: OwnerEntry,
    c: ClassId,
    t: TokenId,
)
    requires
        0 <= i < s.len(),
    ensures
        shares_sum(s.update(i, e), c, t) == shares_sum(s, c, t) - share_contrib(s[i], c, t)
            + share_contrib(e, c, t),
    decreases s.len(),
{
    let su = s.update(i, e);
    if i == s.len() - 1 {
        assert(su.last() == e);
        assert(su.drop_last() =~= s.drop_last());
    } else {
        assert(su.last() == s.last());
        assert(su.drop_last() =~= s.drop_last().update(i, e));
        assert(s.drop_last()[i] == s[i]);
        lemma_shares_sum_update(s.drop_last(), i, e, c, t);
    }
}

/// Removing the entry at `i` takes its contribution out of the share total.
pub proof fn lemma_shares_sum_remove(s: Seq<OwnerEntry>, i: int, c: ClassId, t: TokenId)
    requires
        0 <= i < s.len(),
    ensures
        shares_sum(s.remove(i), c, t) == shares_sum(s, c, t) - share_contrib(s[i], c, t),
    decreases s.len(),
{
    let sr = s.remove(i);
    s.remove_ensures(i);
    if i == s.len() - 1 {
        assert(sr =~= s.drop_last());
    } else {
        assert(sr.last() == s.last());
        assert(sr.drop_last() =~= s.drop_last().remove(i)) by {
            s.drop_last().remove_ensures(i);
            assert forall|j: int| 0 <= j < sr.len() - 1 implies sr.drop_last()[j]
                == s.drop_last().remove(i)[j] by {
                if j < i {
                    assert(sr[j] == s[j]);
                    assert(s.drop_last().remove(i)[j] == s.drop_last()[j]);
                } else {
                    assert(sr[j] == s[j + 1]);
                    assert(s.drop_last().remove(i)[j] == s.drop_last()[j + 1]);
                }
            }
        }
        assert(s.drop_last()[i] == s[i]);
        lemma_shares_sum_remove(s.drop_last(), i, c, t);
    }
}

/// A share total is never negative.
pub proof fn lemma_shares_sum_nonneg(s: Seq<OwnerEntry>, c: ClassId, t: TokenId)
    ensures
        shares_sum(s, c, t) >= 0,
    decreases s.len(),
{
    if s.len() > 0 {
        lemma_shares_sum_nonneg(s.drop_last(), c, t);
    }
}

/// A token with no ownership records has a share total of 0.
pub proof fn lemma_shares_sum_zero(s: Seq<OwnerEntry>, c: ClassId, t: TokenId)
    requires
        forall|i: int| 0 <= i < s.len() ==> !((#[trigger] s[i]).0.1.0 == c && s[i].0.1.1 == t),
    ensures
        shares_sum(s, c, t) == 0,
    decreases s.len(),
{
    if s.len() > 0 {
        assert(s.drop_last() =~= s.subrange(0, s.len() - 1));
        assert(forall|i: int|
            0 <= i < s.drop_last().len() ==> s.drop_last()[i] == s[i]);
        lemma_shares_sum_zero(s.drop_last(), c, t);
        assert(share_contrib(s.last(), c, t) == 0);
    }
}

/// One entry's contribution is a lower bound for the share total.
pub proof fn lemma_shares_sum_entry_bound(s: Seq<OwnerEntry>, i: int, c: ClassId, t: TokenId)
    requires
        0 <= i < s.len(),
    ensures
        shares_sum(s, c, t) >= share_contrib(s[i], c, t),
{
    lemma_shares_sum_remove(s, i, c, t);
    lemma_shares_sum_nonneg(s.remove(i), c, t);
}

/// Two distinct entries' contributions together bound the share total.
pub proof fn lemma_shares_sum_pair_bound(
    s: Seq<OwnerEntry>,
    i: int,
    j: int,
    c: ClassId,
    t: TokenId,
)
    requires
        0 <= i < s.len(),
        0 <= j < s.len(),
        i != j,
    ensures
        shares_sum(s, c, t) >= share_contrib(s[i], c, t) + share_contrib(s[j], c, t),
{
    lemma_shares_sum_remove(s, i, c, t);
    let sr = s.remove(i);
    s.remove_ensures(i);
    let jr: int = if j < i {
        j
    } else {
        j - 1
    };
    assert(sr[jr] == s[j]);
    lemma_shares_sum_entry_bound(sr, jr, c, t);
}

/// Appending an entry adds its contribution to the class count.
pub proof fn lemma_count_push(s: Seq<TokenEntry>, e: TokenEntry, c: ClassId)
    ensures
        count_in_class(s.push(e), c) == count_in_class(s, c) + class_contrib(e, c),
{
    assert(s.push(e).last() == e);
    assert(s.push(e).drop_last() =~= s);
}

/// Overwriting the entry at `i` swaps its contribution in the class count.
pub proof fn lemma_count_update(s: Seq<TokenEntry>, i: int, e: TokenEntry, c: ClassId)
    requires
        0 <= i < s.len(),
    ensures
        count_in_class(s.update(i, e), c) == count_in_class(s, c) - class_contrib(s[i], c)
            + class_contrib(e, c),
    decreases s.len(),
{
    let su = s.update(i, e);
    if i == s.len() - 1 {
        assert(su.last() == e);
        assert(su.drop_last() =~= s.drop_last());
    } else {
        assert(su.last() == s.last());
        assert(su.drop_last() =~= s.drop_last().update(i, e));
        assert(s.drop_last()[i] == s[i]);
        lemma_count_update(s.drop_last(), i, e, c);
    }
}

/// Removing the entry at `i` takes its contribution out of the class count.
pub proof fn lemma_count_remove(s: Seq<TokenEntry>, i: int, c: ClassId)
    requires
        0 <= i < s.len(),
    ensures
        count_in_class(s.remove(i), c) == count_in_class(s, c) - class_contrib(s[i], c),
    decreases s.len(),
{
    let sr = s.remove(i);
    s.remove_ensures(i);
    if i == s.len() - 1 {
        assert(sr =~= s.drop_last());
    } else {
        assert(sr.last() == s.last());
        assert(sr.drop_last() =~= s.drop_last().remove(i)) by {
            s.drop_last().remove_ensures(i);
            assert forall|j: int| 0 <= j < sr.len() - 1 implies sr.drop_last()[j]
                == s.drop_last().remove(i)[j] by {
                if j < i {
                    assert(sr[j] == s[j]);
                    assert(s.drop_last().remove(i)[j] == s.drop_last()[j]);
                } else {
                    assert(sr[j] == s[j + 1]);
                    assert(s.drop_last().remove(i)[j] == s.drop_last()[j + 1]);
                }
            }
        }
        assert(s.drop_last()[i] == s[i]);
        lemma_count_remove(s.drop_last(), i, c);
    }
}

/// A class count is never negative.
pub proof fn lemma_count_nonneg(s: Seq<TokenEntry>, c: ClassId)
    ensures
        count_in_class(s, c) >= 0,
    decreases s.len(),
{
    if s.len() > 0 {
        lemma_count_nonneg(s.drop_last(), c);
    }
}

/// A class with no live tokens counts 0.
pub proof fn lemma_count_zero(s: Seq<TokenEntry>, c: ClassId)
    requires
        forall|i: int| 0 <= i < s.len() ==> (#[trigger] s[i]).0.0 != c,
    ensures
        count_in_class(s, c) == 0,
    decreases s.len(),
{
    if s.len() > 0 {
        assert(forall|i: int|
            0 <= i < s.drop_last().len() ==> s.drop_last()[i] == s[i]);
        lemma_count_zero(s.drop_last(), c);
    }
}

/// One live token of a class bounds its count from below by 1.
pub proof fn lemma_count_entry_bound(s: Seq<TokenEntry>, i: int, c: ClassId)
    requires
        0 <= i < s.len(),
        s[i].0.0 == c,
    ensures
        count_in_class(s, c) >= 1,
{
    lemma_count_remove(s, i, c);
    lemma_count_nonneg(s.remove(i), c);
}

} // verus!
