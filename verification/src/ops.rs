//! The lifecycle operations: create class, mint, transfer, burn, destroy
//! class.
//!
//! Each operation either commits all of its effects or returns an error and
//! leaves the ledger exactly as it was; every check happens before the first
//! write. Each operation preserves the ledger's well-formedness.

use vstd::prelude::*;
use crate::kv::{
    kv_contains_entry, kv_distinct, kv_find, lemma_kv_distinct_push, lemma_kv_distinct_remove, lemma_kv_distinct_update,
    lemma_kv_find_exists, lemma_kv_find_push, lemma_kv_find_remove, lemma_kv_find_update,
};
use crate::pallet::{
    find_class_index, find_counter_index, find_owner_index, find_token_index, owners_contains,
    strictly_sorted, Pallet,
};
use crate::tally::{
    count_in_class, lemma_count_entry_bound, lemma_count_push, lemma_count_zero,
    lemma_count_remove, lemma_count_update, lemma_shares_sum_pair_bound,
    lemma_shares_sum_push, lemma_shares_sum_remove, lemma_shares_sum_update,
    lemma_shares_sum_zero, share_contrib, shares_sum, ClassEntry, OwnerEntry,
};
use crate::types::{AccountId, ClassId, ClassInfo, Error, TokenByOwnerData, TokenId, TokenInfo};

verus! {

impl Pallet {
    /// Creates a new class owned by `owner` and returns its identifier: the
    /// current value of the next-class-id counter, which advances by one.
    /// Fails with `NoAvailableClassId`, changing nothing, exactly when that
    /// counter would overflow. Identifiers are therefore never reused.
    pub fn create_class(&mut self, owner: AccountId, metadata: Vec<u8>, data: Vec<u8>) -> (r:
        Result<ClassId, Error>)
        requires
            old(self).wf(),
        ensures
            final(self).wf(),
            old(self).next_class_id == u64::MAX ==> r == Err::<ClassId, Error>(
                Error::NoAvailableClassId,
            ) && *final(self) == *old(self),
            old(self).next_class_id < u64::MAX ==> r == Ok::<ClassId, Error>(
                old(self).next_class_id,
            ),
            old(self).next_class_id < u64::MAX ==> final(self).next_class_id == old(
                self,
            ).next_class_id + 1,
            old(self).next_class_id < u64::MAX ==> (final(self).class_spec(
                old(self).next_class_id,
            ) matches Some(info) && info.metadata@ == metadata@ && info.total_issuance == 0
                && info.owner == owner && info.data@ == data@),
            old(self).next_class_id < u64::MAX ==> forall|c: ClassId|
                c != old(self).next_class_id ==> final(self).class_spec(c) == old(
                    self,
                ).class_spec(c),
            final(self).tokens@ == old(self).tokens@,
            final(self).tokens_by_owner@ == old(self).tokens_by_owner@,
            final(self).next_token_ids@ == old(self).next_token_ids@,
            final(self).next_class_id >= old(self).next_class_id,
    {
        if self.next_class_id == u64::MAX {
            return Err(Error::NoAvailableClassId);
        }
        let class_id = self.next_class_id;
        let info = ClassInfo { metadata, total_issuance: 0, owner, data };
        proof {
            lemma_kv_find_exists(self.classes@, class_id);
            if kv_find(self.classes@, class_id) is Some {
                let i = choose|i: int|
                    0 <= i < self.classes@.len() && self.classes@[i].0 == class_id;
                assert(self.classes@[i].0 < self.next_class_id);
                assert(false);
            }
        }
        let ghost old_classes = self.classes@;
        let ghost entry: ClassEntry = (class_id, info);
        self.classes.push((class_id, info));
        self.next_class_id = class_id + 1;
        proof {
            assert(self.classes@ == old_classes.push(entry));
            lemma_kv_distinct_push(old_classes, entry);
            assert forall|c: ClassId| #[trigger]
                kv_find(self.classes@, c) == (if c == class_id {
                    Some(entry.1)
                } else {
                    kv_find(old_classes, c)
                }) by {
                lemma_kv_find_push(old_classes, entry, c);
            }
            // The new class has no live tokens: every token's class was
            // already live, and class_id was not.
            assert forall|i: int| 0 <= i < self.tokens@.len() implies (
            #[trigger] self.tokens@[i]).0.0 != class_id by {
                assert(kv_find(old_classes, self.tokens@[i].0.0) is Some);
            }
            lemma_count_zero(self.tokens@, class_id);
            assert(self.wf()) by {
                assert forall|i: int| 0 <= i < self.classes@.len() implies (
                #[trigger] self.classes@[i]).1.total_issuance as int == count_in_class(
                    self.tokens@,
                    self.classes@[i].0,
                ) by {
                    if i < old_classes.len() {
                        assert(self.classes@[i] == old_classes[i]);
                    } else {
                        assert(self.classes@[i] == entry);
                    }
                }
                assert forall|i: int| 0 <= i < self.classes@.len() implies (
                #[trigger] self.classes@[i]).0 < self.next_class_id by {
                    if i < old_classes.len() {
                        assert(self.classes@[i] == old_classes[i]);
                    }
                }
            }
        }
        Ok(class_id)
    }

    /// Removes class `class_id` and its token-id counter. Requires the
    /// caller to be the class owner and the class to have no live tokens;
    /// fails with `ClassNotFound`, `NoPermission` or `CannotDestroyClass`
    /// respectively, changing nothing.
    pub fn destroy_class(&mut self, owner: AccountId, class_id: ClassId) -> (r: Result<
        (),
        Error,
    >)
        requires
            old(self).wf(),
        ensures
            final(self).wf(),
            old(self).class_spec(class_id) is None ==> r == Err::<(), Error>(
                Error::ClassNotFound,
            ) && *final(self) == *old(self),
            (old(self).class_spec(class_id) matches Some(info) && info.owner != owner) ==> r
                == Err::<(), Error>(Error::NoPermission) && *final(self) == *old(self),
            (old(self).class_spec(class_id) matches Some(info) && info.owner == owner
                && info.total_issuance != 0) ==> r == Err::<(), Error>(
                Error::CannotDestroyClass,
            ) && *final(self) == *old(self),
            (old(self).class_spec(class_id) matches Some(info) && info.owner == owner
                && info.total_issuance == 0) ==> {
                &&& r == Ok::<(), Error>(())
                &&& final(self).class_spec(class_id) is None
                &&& forall|c: ClassId|
                    c != class_id ==> final(self).class_spec(c) == old(self).class_spec(c)
                &&& kv_find(final(self).next_token_ids@, class_id) is None
                &&& forall|c: ClassId|
                    c != class_id ==> kv_find(final(self).next_token_ids@, c) == kv_find(
                        old(self).next_token_ids@,
                        c,
                    )
                &&& final(self).tokens@ == old(self).tokens@
                &&& final(self).tokens_by_owner@ == old(self).tokens_by_owner@
                &&& final(self).next_class_id == old(self).next_class_id
            },
            final(self).next_class_id == old(self).next_class_id,
    {
        let i = match find_class_index(&self.classes, class_id) {
            Some(i) => i,
            None => {
                return Err(Error::ClassNotFound);
            },
        };
        if self.classes[i].1.owner != owner {
            return Err(Error::NoPermission);
        }
        if self.classes[i].1.total_issuance != 0 {
            return Err(Error::CannotDestroyClass);
        }
        let ghost old_classes = self.classes@;
        let ghost old_counters = self.next_token_ids@;
        proof {
            crate::kv::lemma_kv_find_index(self.classes@, i as int);
        }
        self.classes.remove(i);
        proof {
            lemma_kv_distinct_remove(old_classes, i as int);
            assert forall|c: ClassId| #[trigger]
                kv_find(self.classes@, c) == (if c == class_id {
                    None::<ClassInfo>
                } else {
                    kv_find(old_classes, c)
                }) by {
                lemma_kv_find_remove(old_classes, i as int, c);
            }
        }
        // The class had issuance 0, so it has no live tokens.
        proof {
            assert forall|k: int| 0 <= k < self.tokens@.len() implies (
            #[trigger] self.tokens@[k]).0.0 != class_id by {
                if self.tokens@[k].0.0 == class_id {
                    lemma_count_entry_bound(self.tokens@, k, class_id);
                }
            }
        }
        match find_counter_index(&self.next_token_ids, class_id) {
            Some(k) => {
                proof {
                    crate::kv::lemma_kv_find_index(self.next_token_ids@, k as int);
                }
                self.next_token_ids.remove(k);
                proof {
                    lemma_kv_distinct_remove(old_counters, k as int);
                    assert forall|c: ClassId| #[trigger]
                        kv_find(self.next_token_ids@, c) == (if c == class_id {
                            None::<TokenId>
                        } else {
                            kv_find(old_counters, c)
                        }) by {
                        lemma_kv_find_remove(old_counters, k as int, c);
                    }
                }
            },
            None => {
                assert(kv_find(self.next_token_ids@, class_id) is None);
            },
        }
        proof {
            // Remaining counters belong to other, still-live classes.
            assert forall|k: int| 0 <= k < self.next_token_ids@.len() implies kv_find(
                self.classes@,
                (#[trigger] self.next_token_ids@[k]).0,
            ) is Some by {
                let c = self.next_token_ids@[k].0;
                lemma_kv_find_exists(old_counters, c);
                assert(kv_find(old_counters, c) is Some);
                assert(kv_find(old_classes, c) is Some);
                lemma_kv_find_exists(old_classes, c);
                let j = choose|j: int| 0 <= j < old_classes.len() && old_classes[j].0 == c;
                if c == class_id {
                    assert(old_classes[j].0 == old_classes[i as int].0);
                    assert(j == i as int);
                    assert(false);
                }
            }
            assert(self.wf());
        }
        Ok(())
    }

    /// Mints a new token of class `class_id` to `owner` and returns its
    /// identifier: the class's next-token-id counter, which advances by
    /// one. The minter becomes the sole owner with a share of 100. Fails,
    /// changing nothing, with `NoAvailableTokenId` when the counter would
    /// overflow, `ClassNotFound` when the class is not live, and
    /// `NumOverflow` when the class's issuance counter would overflow.
    pub fn mint(&mut self, owner: AccountId, class_id: ClassId, metadata: Vec<u8>, data: Vec<
        u8,
    >) -> (r: Result<TokenId, Error>)
        requires
            old(self).wf(),
        ensures
            final(self).wf(),
            old(self).next_token_spec(class_id) == u64::MAX ==> r == Err::<TokenId, Error>(
                Error::NoAvailableTokenId,
            ) && *final(self) == *old(self),
            old(self).next_token_spec(class_id) < u64::MAX && old(self).class_spec(class_id)
                is None ==> r == Err::<TokenId, Error>(Error::ClassNotFound) && *final(self)
                == *old(self),
            (old(self).class_spec(class_id) matches Some(info) && old(self).next_token_spec(
                class_id,
            ) < u64::MAX && info.total_issuance == u64::MAX) ==> r == Err::<TokenId, Error>(
                Error::NumOverflow,
            ) && *final(self) == *old(self),
            old(self).class_spec(class_id) matches Some(info) ==> (old(self).next_token_spec(
                class_id,
            ) < u64::MAX && info.total_issuance < u64::MAX ==> {
                let t0 = old(self).next_token_spec(class_id);
                &&& r == Ok::<TokenId, Error>(t0)
                &&& final(self).next_token_spec(class_id) == t0 + 1
                &&& (final(self).token_spec(class_id, t0) matches Some(ti) && ti.metadata@
                    == metadata@ && ti.data@ == data@ && ti.owners@ == seq![owner])
                &&& (final(self).class_spec(class_id) matches Some(ci) && ci.total_issuance
                    == info.total_issuance + 1 && ci.metadata@ == info.metadata@ && ci.owner
                    == info.owner && ci.data@ == info.data@)
                &&& final(self).share_spec(owner, class_id, t0) == Some(
                    TokenByOwnerData { percent_owned: 100 },
                )
                &&& forall|c: ClassId, t: TokenId|
                    !(c == class_id && t == t0) ==> final(self).token_spec(c, t) == old(
                        self,
                    ).token_spec(c, t)
                &&& forall|a: AccountId, c: ClassId, t: TokenId|
                    !(a == owner && c == class_id && t == t0) ==> final(self).share_spec(
                        a,
                        c,
                        t,
                    ) == old(self).share_spec(a, c, t)
                &&& forall|c: ClassId|
                    c != class_id ==> final(self).class_spec(c) == old(self).class_spec(c)
                &&& forall|c: ClassId|
                    c != class_id ==> final(self).next_token_spec(c) == old(
                        self,
                    ).next_token_spec(c)
            }),
            final(self).next_class_id == old(self).next_class_id,
            forall|c: ClassId|
                final(self).next_token_spec(c) >= old(self).next_token_spec(c),
    {
        let tid = self.next_token_id(class_id);
        if tid == u64::MAX {
            return Err(Error::NoAvailableTokenId);
        }
        let ci = match find_class_index(&self.classes, class_id) {
            Some(i) => i,
            None => {
                return Err(Error::ClassNotFound);
            },
        };
        let issuance = self.classes[ci].1.total_issuance;
        if issuance == u64::MAX {
            return Err(Error::NumOverflow);
        }
        let ghost old_classes = self.classes@;
        let ghost old_counters = self.next_token_ids@;
        let ghost old_tokens = self.tokens@;
        let ghost old_records = self.tokens_by_owner@;
        // The token identifier is fresh: all live tokens of the class lie
        // below the counter. The record key is fresh too, and no record
        // sums towards the fresh token: every record points at a live
        // token.
        proof {
            lemma_kv_find_exists(old_tokens, (class_id, tid));
            if kv_find(old_tokens, (class_id, tid)) is Some {
                let k = choose|k: int|
                    0 <= k < old_tokens.len() && old_tokens[k].0 == (class_id, tid);
                assert(old_tokens[k].0.1 < self.next_token_spec(class_id));
                assert(false);
            }
            lemma_kv_find_exists(old_records, (owner, (class_id, tid)));
            if kv_find(old_records, (owner, (class_id, tid))) is Some {
                let k = choose|k: int|
                    0 <= k < old_records.len() && old_records[k].0 == (owner, (class_id, tid));
                assert(kv_find(old_tokens, old_records[k].0.1) is Some);
                assert(false);
            }
            assert forall|k: int| 0 <= k < old_records.len() implies !((
            #[trigger] old_records[k]).0.1.0 == class_id && old_records[k].0.1.1 == tid) by {
                if old_records[k].0.1.0 == class_id && old_records[k].0.1.1 == tid {
                    assert(old_records[k].0.1 == (class_id, tid));
                    assert(kv_find(old_tokens, old_records[k].0.1) is Some);
                    assert(false);
                }
            }
            lemma_shares_sum_zero(old_records, class_id, tid);
        }
        // Commit: bump the issuance and the counter, store the token and
        // the minter's record of 100.
        proof {
            crate::kv::lemma_kv_find_index(self.classes@, ci as int);
        }
        self.classes[ci].1.total_issuance = issuance + 1;
        proof {
            let e: ClassEntry = self.classes@[ci as int];
            assert(e.0 == class_id);
            lemma_kv_distinct_update(old_classes, ci as int, e);
            assert forall|c: ClassId| #[trigger]
                kv_find(self.classes@, c) == (if c == class_id {
                    Some(self.classes@[ci as int].1)
                } else {
                    kv_find(old_classes, c)
                }) by {
                lemma_kv_find_update(old_classes, ci as int, self.classes@[ci as int], c);
            }
        }
        match find_counter_index(&self.next_token_ids, class_id) {
            Some(k) => {
                proof {
                    crate::kv::lemma_kv_find_index(self.next_token_ids@, k as int);
                }
                self.next_token_ids[k] = (class_id, tid + 1);
                proof {
                    lemma_kv_distinct_update(old_counters, k as int, (class_id, (tid + 1) as u64));
                    assert forall|c: ClassId| #[trigger]
                        kv_find(self.next_token_ids@, c) == (if c == class_id {
                            Some((tid + 1) as u64)
                        } else {
                            kv_find(old_counters, c)
                        }) by {
                        lemma_kv_find_update(old_counters, k as int, (class_id, (tid + 1) as u64), c);
                    }
                    assert forall|m: int| 0 <= m < self.next_token_ids@.len() implies (
                    #[trigger] self.next_token_ids@[m]).0 == class_id || kv_find(
                        old_classes,
                        self.next_token_ids@[m].0,
                    ) is Some by {
                        if m != k as int {
                            assert(self.next_token_ids@[m] == old_counters[m]);
                        }
                    }
                }
            },
            None => {
                self.next_token_ids.push((class_id, tid + 1));
                proof {
                    lemma_kv_distinct_push(old_counters, (class_id, (tid + 1) as u64));
                    assert forall|c: ClassId| #[trigger]
                        kv_find(self.next_token_ids@, c) == (if c == class_id {
                            Some((tid + 1) as u64)
                        } else {
                            kv_find(old_counters, c)
                        }) by {
                        lemma_kv_find_push(old_counters, (class_id, (tid + 1) as u64), c);
                    }
                    assert forall|m: int| 0 <= m < self.next_token_ids@.len() implies (
                    #[trigger] self.next_token_ids@[m]).0 == class_id || kv_find(
                        old_classes,
                        self.next_token_ids@[m].0,
                    ) is Some by {
                        if m < old_counters.len() {
                            assert(self.next_token_ids@[m] == old_counters[m]);
                        }
                    }
                }
            },
        }
        let mut owners: Vec<AccountId> = Vec::new();
        owners.push(owner);
        proof {
            assert(owners@ =~= seq![owner]);
        }
        self.tokens.push(((class_id, tid), TokenInfo { metadata, owners, data }));
        proof {
            let te = self.tokens@.last();
            assert(self.tokens@ == old_tokens.push(te));
            assert(te.0 == (class_id, tid));
            lemma_kv_distinct_push(old_tokens, te);
            assert forall|key: (ClassId, TokenId)| #[trigger]
                kv_find(self.tokens@, key) == (if key == (class_id, tid) {
                    Some(te.1)
                } else {
                    kv_find(old_tokens, key)
                }) by {
                lemma_kv_find_push(old_tokens, te, key);
            }
        }
        self.tokens_by_owner.push(
            ((owner, (class_id, tid)), TokenByOwnerData { percent_owned: 100 }),
        );
        proof {
            let re = self.tokens_by_owner@.last();
            let te = self.tokens@.last();
            assert(self.tokens_by_owner@ == old_records.push(re));
            lemma_kv_distinct_push(old_records, re);
            assert forall|key: (AccountId, (ClassId, TokenId))| #[trigger]
                kv_find(self.tokens_by_owner@, key) == (if key == (owner, (class_id, tid)) {
                    Some(re.1)
                } else {
                    kv_find(old_records, key)
                }) by {
                lemma_kv_find_push(old_records, re, key);
            }
            assert forall|c: ClassId, t: TokenId| #[trigger]
                shares_sum(self.tokens_by_owner@, c, t) == shares_sum(old_records, c, t) + (
                if c == class_id && t == tid {
                    100int
                } else {
                    0int
                }) by {
                lemma_shares_sum_push(old_records, re, c, t);
                if c == class_id && t == tid {
                    assert(share_contrib(re, c, t) == 100);
                } else {
                    assert(re.0.1 == (class_id, tid));
                    assert(share_contrib(re, c, t) == 0);
                }
            }
            assert forall|c: ClassId| #[trigger]
                count_in_class(self.tokens@, c) == count_in_class(old_tokens, c) + (
                if c == class_id {
                    1int
                } else {
                    0int
                }) by {
                lemma_count_push(old_tokens, te, c);
            }
            // Well-formedness is restored clause by clause.
            assert forall|i: int|
                0 <= i < self.tokens@.len() implies strictly_sorted(
                (#[trigger] self.tokens@[i]).1.owners@,
            ) by {
                if i < old_tokens.len() {
                    assert(self.tokens@[i] == old_tokens[i]);
                } else {
                    assert(self.tokens@[i].1.owners@.len() == 1);
                }
            }
            assert forall|k: int| 0 <= k < self.tokens_by_owner@.len() implies {
                let e = #[trigger] self.tokens_by_owner@[k];
                1 <= e.1.percent_owned <= 100 && match kv_find(self.tokens@, e.0.1) {
                    Some(i2) => i2.owners@.contains(e.0.0),
                    None => false,
                }
            } by {
                if k < old_records.len() {
                    assert(self.tokens_by_owner@[k] == old_records[k]);
                    let e = old_records[k];
                    assert(kv_find(old_tokens, e.0.1) is Some);
                    assert(e.0.1 != (class_id, tid));
                    assert(kv_find(self.tokens@, e.0.1) == kv_find(old_tokens, e.0.1));
                } else {
                    assert(self.tokens_by_owner@[k] == re);
                    assert(kv_find(self.tokens@, (class_id, tid)) == Some(te.1));
                    assert(te.1.owners@[0] == owner);
                    assert(te.1.owners@.contains(owner));
                }
            }
            assert(self.records_match_tokens());
            assert forall|i: int, j: int|
                0 <= i < self.tokens@.len() && 0 <= j < (
                #[trigger] self.tokens@[i]).1.owners@.len() implies self.owns(
                #[trigger] self.tokens@[i].1.owners@[j],
                self.tokens@[i].0.0,
                self.tokens@[i].0.1,
            ) by {
                let a = self.tokens@[i].1.owners@[j];
                let c = self.tokens@[i].0.0;
                let t = self.tokens@[i].0.1;
                assert((c, t) == self.tokens@[i].0);
                if i < old_tokens.len() {
                    assert(self.tokens@[i] == old_tokens[i]);
                    assert(old(self).owns(a, c, t));
                    assert(kv_find(old_records, (a, (c, t))) is Some);
                } else {
                    assert(j == 0 && a == owner && c == class_id && t == tid);
                }
            }
            assert forall|i: int|
                0 <= i < self.tokens@.len() implies shares_sum(
                self.tokens_by_owner@,
                (#[trigger] self.tokens@[i]).0.0,
                self.tokens@[i].0.1,
            ) == 100 by {
                let c = self.tokens@[i].0.0;
                let t = self.tokens@[i].0.1;
                if i < old_tokens.len() {
                    assert(self.tokens@[i] == old_tokens[i]);
                    assert(shares_sum(old_records, c, t) == 100);
                    if c == class_id && t == tid {
                        assert(old_tokens[i].0 == (class_id, tid));
                        assert(false);
                    }
                } else {
                    assert(c == class_id && t == tid);
                    assert(shares_sum(old_records, c, t) == 0);
                }
            }
            assert forall|j: int|
                0 <= j < self.classes@.len() implies (
            #[trigger] self.classes@[j]).1.total_issuance as int == count_in_class(
                self.tokens@,
                self.classes@[j].0,
            ) by {
                if j == ci as int {
                    assert(old_classes[j].1.total_issuance as int == count_in_class(
                        old_tokens,
                        old_classes[j].0,
                    ));
                    assert(old_classes[j].0 == class_id);
                    assert(self.classes@[j].1.total_issuance == issuance + 1);
                } else {
                    assert(self.classes@[j] == old_classes[j]);
                    assert(old_classes[j].0 != old_classes[ci as int].0);
                    assert(old_classes[j].1.total_issuance as int == count_in_class(
                        old_tokens,
                        old_classes[j].0,
                    ));
                }
            }
            assert forall|i: int|
                0 <= i < self.tokens@.len() implies kv_find(
                self.classes@,
                (#[trigger] self.tokens@[i]).0.0,
            ) is Some by {
                if i < old_tokens.len() {
                    assert(self.tokens@[i] == old_tokens[i]);
                    assert(kv_find(old_classes, old_tokens[i].0.0) is Some);
                }
            }
            assert forall|m: int|
                0 <= m < self.next_token_ids@.len() implies kv_find(
                self.classes@,
                (#[trigger] self.next_token_ids@[m]).0,
            ) is Some by {
                assert(self.next_token_ids@[m].0 == class_id || kv_find(
                    old_classes,
                    self.next_token_ids@[m].0,
                ) is Some);
            }
            assert forall|j: int|
                0 <= j < self.classes@.len() implies (#[trigger] self.classes@[j]).0
                < self.next_class_id by {
                if j != ci as int {
                    assert(self.classes@[j] == old_classes[j]);
                } else {
                    assert(self.classes@[j].0 == old_classes[j].0);
                }
            }
            assert forall|i: int|
                0 <= i < self.tokens@.len() implies (#[trigger] self.tokens@[i]).0.1
                < self.next_token_spec(self.tokens@[i].0.0) by {
                let c = self.tokens@[i].0.0;
                if i < old_tokens.len() {
                    assert(self.tokens@[i] == old_tokens[i]);
                    assert(old_tokens[i].0.1 < old(self).next_token_spec(c));
                    if c == class_id {
                        assert(self.next_token_spec(c) == tid + 1);
                        assert(old(self).next_token_spec(c) == tid);
                    } else {
                        assert(self.next_token_spec(c) == old(self).next_token_spec(c));
                    }
                } else {
                    assert(self.tokens@[i].0.1 == tid);
                    assert(self.next_token_spec(class_id) == tid + 1);
                }
            }
            assert(self.wf());
            assert(self.token_spec(class_id, tid) == Some(te.1));
            assert(te.1.owners@ == seq![owner]);
        }
        Ok(tid)
    }

    /// Burns token `token`: removes the token record, decrements its
    /// class's issuance counter, and deletes every ownership record of the
    /// token — burn is a total destruction, not a single owner's exit.
    /// Requires `owner` to be one of the token's current owners. Fails,
    /// changing nothing, with `TokenNotFound`, `NoPermission`,
    /// `ClassNotFound` or `NumOverflow` (issuance underflow) respectively.
    pub fn burn(&mut self, owner: AccountId, token: (ClassId, TokenId)) -> (r: Result<
        (),
        Error,
    >)
        requires
            old(self).wf(),
        ensures
            final(self).wf(),
            old(self).token_spec(token.0, token.1) is None ==> r == Err::<(), Error>(
                Error::TokenNotFound,
            ) && *final(self) == *old(self),
            (old(self).token_spec(token.0, token.1) matches Some(info)
                && !info.owners@.contains(owner)) ==> r == Err::<(), Error>(
                Error::NoPermission,
            ) && *final(self) == *old(self),
            (old(self).token_spec(token.0, token.1) matches Some(info)
                && info.owners@.contains(owner) && old(self).class_spec(token.0) is None) ==> r
                == Err::<(), Error>(Error::ClassNotFound) && *final(self) == *old(self),
            (old(self).token_spec(token.0, token.1) matches Some(info)
                && info.owners@.contains(owner) && (old(self).class_spec(token.0)
                matches Some(cl) && cl.total_issuance == 0)) ==> r == Err::<(), Error>(
                Error::NumOverflow,
            ) && *final(self) == *old(self),
            old(self).token_spec(token.0, token.1) matches Some(info) ==> (old(
                self,
            ).class_spec(token.0) matches Some(cl) ==> (info.owners@.contains(owner)
                && cl.total_issuance > 0 ==> {
                &&& r == Ok::<(), Error>(())
                &&& final(self).token_spec(token.0, token.1) is None
                &&& forall|c: ClassId, t: TokenId|
                    !(c == token.0 && t == token.1) ==> final(self).token_spec(c, t) == old(
                        self,
                    ).token_spec(c, t)
                &&& forall|a: AccountId| final(self).share_spec(a, token.0, token.1) is None
                &&& forall|a: AccountId, c: ClassId, t: TokenId|
                    !(c == token.0 && t == token.1) ==> final(self).share_spec(a, c, t)
                        == old(self).share_spec(a, c, t)
                &&& (final(self).class_spec(token.0) matches Some(cl2) && cl2.total_issuance
                    == cl.total_issuance - 1 && cl2.metadata@ == cl.metadata@ && cl2.owner
                    == cl.owner && cl2.data@ == cl.data@)
                &&& forall|c: ClassId|
                    c != token.0 ==> final(self).class_spec(c) == old(self).class_spec(c)
            })),
            final(self).next_class_id == old(self).next_class_id,
            final(self).next_token_ids@ == old(self).next_token_ids@,
    {
        let (c, t) = token;
        let ti = match find_token_index(&self.tokens, c, t) {
            Some(i) => i,
            None => {
                return Err(Error::TokenNotFound);
            },
        };
        if !owners_contains(&self.tokens[ti].1.owners, owner) {
            return Err(Error::NoPermission);
        }
        let ci = match find_class_index(&self.classes, c) {
            Some(i) => i,
            None => {
                return Err(Error::ClassNotFound);
            },
        };
        let issuance = self.classes[ci].1.total_issuance;
        if issuance == 0 {
            return Err(Error::NumOverflow);
        }
        let ghost old_classes = self.classes@;
        let ghost old_tokens = self.tokens@;
        let ghost old_records = self.tokens_by_owner@;
        proof {
            crate::kv::lemma_kv_find_index(self.classes@, ci as int);
            crate::kv::lemma_kv_find_index(self.tokens@, ti as int);
            assert(old_tokens[ti as int].0 == (c, t));
        }
        // Commit: drop the token record, decrement the issuance, and wipe
        // every ownership record of the token.
        self.tokens.remove(ti);
        proof {
            lemma_kv_distinct_remove(old_tokens, ti as int);
            old_tokens.remove_ensures(ti as int);
            assert forall|key: (ClassId, TokenId)| #[trigger]
                kv_find(self.tokens@, key) == (if key == (c, t) {
                    None::<TokenInfo>
                } else {
                    kv_find(old_tokens, key)
                }) by {
                lemma_kv_find_remove(old_tokens, ti as int, key);
            }
            assert forall|c2: ClassId| #[trigger]
                count_in_class(self.tokens@, c2) == count_in_class(old_tokens, c2) - (
                if c2 == c {
                    1int
                } else {
                    0int
                }) by {
                lemma_count_remove(old_tokens, ti as int, c2);
            }
        }
        self.classes[ci].1.total_issuance = issuance - 1;
        proof {
            let e: ClassEntry = self.classes@[ci as int];
            assert(e.0 == c);
            lemma_kv_distinct_update(old_classes, ci as int, e);
            assert forall|c2: ClassId| #[trigger]
                kv_find(self.classes@, c2) == (if c2 == c {
                    Some(self.classes@[ci as int].1)
                } else {
                    kv_find(old_classes, c2)
                }) by {
                lemma_kv_find_update(old_classes, ci as int, self.classes@[ci as int], c2);
            }
        }
        purge_token_records(&mut self.tokens_by_owner, c, t);
        proof {
            let new_tokens = self.tokens@;
            let new_records = self.tokens_by_owner@;
            // Well-formedness is restored clause by clause.
            assert forall|i: int|
                0 <= i < new_tokens.len() implies strictly_sorted(
                (#[trigger] new_tokens[i]).1.owners@,
            ) by {
                let io: int = if i < ti as int {
                    i
                } else {
                    i + 1
                };
                assert(new_tokens[i] == old_tokens[io]);
            }
            assert forall|k: int| 0 <= k < new_records.len() implies {
                let e = #[trigger] new_records[k];
                1 <= e.1.percent_owned <= 100 && match kv_find(new_tokens, e.0.1) {
                    Some(i2) => i2.owners@.contains(e.0.0),
                    None => false,
                }
            } by {
                let e = new_records[k];
                assert(kv_contains_entry(old_records, e));
                let n = choose|n: int| 0 <= n < old_records.len() && old_records[n] == e;
                assert(1 <= e.1.percent_owned <= 100);
                assert(kv_find(old_tokens, e.0.1) is Some);
                assert(e.0.1 != (c, t));
                assert(kv_find(new_tokens, e.0.1) == kv_find(old_tokens, e.0.1));
            }
            assert(self.records_match_tokens());
            assert forall|i: int, j: int|
                0 <= i < new_tokens.len() && 0 <= j < (
                #[trigger] new_tokens[i]).1.owners@.len() implies self.owns(
                #[trigger] new_tokens[i].1.owners@[j],
                new_tokens[i].0.0,
                new_tokens[i].0.1,
            ) by {
                let io: int = if i < ti as int {
                    i
                } else {
                    i + 1
                };
                assert(new_tokens[i] == old_tokens[io]);
                let a = new_tokens[i].1.owners@[j];
                let c2 = new_tokens[i].0.0;
                let t2 = new_tokens[i].0.1;
                assert((c2, t2) == new_tokens[i].0);
                assert(old(self).owns(a, c2, t2));
                assert(new_tokens[i].0 != (c, t));
                assert(kv_find(new_records, (a, (c2, t2))) == kv_find(
                    old_records,
                    (a, (c2, t2)),
                ));
            }
            assert forall|i: int|
                0 <= i < new_tokens.len() implies shares_sum(
                new_records,
                (#[trigger] new_tokens[i]).0.0,
                new_tokens[i].0.1,
            ) == 100 by {
                let io: int = if i < ti as int {
                    i
                } else {
                    i + 1
                };
                assert(new_tokens[i] == old_tokens[io]);
                let c2 = new_tokens[i].0.0;
                let t2 = new_tokens[i].0.1;
                assert(new_tokens[i].0 != (c, t));
                if c2 == c && t2 == t {
                    assert(new_tokens[i].0 == (c, t));
                    assert(false);
                }
                assert(shares_sum(old_records, c2, t2) == 100);
            }
            assert forall|j: int|
                0 <= j < self.classes@.len() implies (
            #[trigger] self.classes@[j]).1.total_issuance as int == count_in_class(
                new_tokens,
                self.classes@[j].0,
            ) by {
                if j == ci as int {
                    assert(old_classes[j].1.total_issuance as int == count_in_class(
                        old_tokens,
                        old_classes[j].0,
                    ));
                    assert(old_classes[j].0 == c);
                } else {
                    assert(self.classes@[j] == old_classes[j]);
                    assert(old_classes[j].0 != old_classes[ci as int].0);
                    assert(old_classes[j].1.total_issuance as int == count_in_class(
                        old_tokens,
                        old_classes[j].0,
                    ));
                }
            }
            assert forall|i: int|
                0 <= i < new_tokens.len() implies kv_find(
                self.classes@,
                (#[trigger] new_tokens[i]).0.0,
            ) is Some by {
                let io: int = if i < ti as int {
                    i
                } else {
                    i + 1
                };
                assert(new_tokens[i] == old_tokens[io]);
                assert(kv_find(old_classes, new_tokens[i].0.0) is Some);
            }
            assert forall|m: int|
                0 <= m < self.next_token_ids@.len() implies kv_find(
                self.classes@,
                (#[trigger] self.next_token_ids@[m]).0,
            ) is Some by {
                assert(kv_find(old_classes, self.next_token_ids@[m].0) is Some);
            }
            assert forall|j: int|
                0 <= j < self.classes@.len() implies (#[trigger] self.classes@[j]).0
                < self.next_class_id by {
                assert(self.classes@[j].0 == old_classes[j].0);
            }
            assert forall|i: int|
                0 <= i < new_tokens.len() implies (#[trigger] new_tokens[i]).0.1
                < self.next_token_spec(new_tokens[i].0.0) by {
                let io: int = if i < ti as int {
                    i
                } else {
                    i + 1
                };
                assert(new_tokens[i] == old_tokens[io]);
                assert(old_tokens[io].0.1 < old(self).next_token_spec(old_tokens[io].0.0));
            }
            assert(self.wf());
        }
        Ok(())
    }

    /// Transfers `percentage` of token `token` from `from` to `to`.
    ///
    /// A self-transfer succeeds and changes nothing, whatever the
    /// percentage. Otherwise the percentage must be positive
    /// (`WrongArguments`), the token live (`TokenNotFound`), `from` a
    /// current owner (`NoPermission`), and the sender's recorded share at
    /// least `percentage` (`SenderInsufficientPercentage`); a failed check
    /// changes nothing. On success the sender's record shrinks by
    /// `percentage` — disappearing, along with the sender's place in the
    /// owner list, when it reaches 0 — and the recipient's record grows by
    /// `percentage`, created (and the recipient added to the sorted owner
    /// list) if absent. All of this commits atomically.
    pub fn transfer(
        &mut self,
        from: AccountId,
        to: AccountId,
        token: (ClassId, TokenId),
        percentage: u8,
    ) -> (r: Result<(), Error>)
        requires
            old(self).wf(),
        ensures
            final(self).wf(),
            from == to ==> r == Ok::<(), Error>(()) && *final(self) == *old(self),
            from != to && percentage == 0 ==> r == Err::<(), Error>(Error::WrongArguments)
                && *final(self) == *old(self),
            from != to && percentage > 0 && old(self).token_spec(token.0, token.1) is None
                ==> r == Err::<(), Error>(Error::TokenNotFound) && *final(self) == *old(self),
            (from != to && percentage > 0 && (old(self).token_spec(token.0, token.1)
                matches Some(info) && !info.owners@.contains(from))) ==> r == Err::<(), Error>(
                Error::NoPermission,
            ) && *final(self) == *old(self),
            (from != to && percentage > 0 && (old(self).token_spec(token.0, token.1)
                matches Some(info) && info.owners@.contains(from)) && old(self).percent_spec(
                from,
                token.0,
                token.1,
            ) < percentage) ==> r == Err::<(), Error>(Error::SenderInsufficientPercentage)
                && *final(self) == *old(self),
            old(self).token_spec(token.0, token.1) matches Some(info) ==> (from != to
                && percentage > 0 && info.owners@.contains(from) && old(self).percent_spec(
                from,
                token.0,
                token.1,
            ) >= percentage ==> {
                &&& r == Ok::<(), Error>(())
                &&& final(self).percent_spec(from, token.0, token.1) == old(self).percent_spec(
                    from,
                    token.0,
                    token.1,
                ) - percentage
                &&& final(self).percent_spec(to, token.0, token.1) == old(self).percent_spec(
                    to,
                    token.0,
                    token.1,
                ) + percentage
                &&& (final(self).owns(from, token.0, token.1) <==> old(self).percent_spec(
                    from,
                    token.0,
                    token.1,
                ) > percentage)
                &&& final(self).owns(to, token.0, token.1)
                &&& forall|a: AccountId|
                    a != from && a != to ==> final(self).share_spec(a, token.0, token.1)
                        == old(self).share_spec(a, token.0, token.1)
                &&& forall|a: AccountId, c2: ClassId, t2: TokenId|
                    !(c2 == token.0 && t2 == token.1) ==> final(self).share_spec(a, c2, t2)
                        == old(self).share_spec(a, c2, t2)
                &&& (final(self).token_spec(token.0, token.1) matches Some(ti2)
                    && ti2.metadata@ == info.metadata@ && ti2.data@ == info.data@ && (forall|
                    a: AccountId,
                |
                    ti2.owners@.contains(a) <==> ((info.owners@.contains(a) || a == to) && !(
                    a == from && old(self).percent_spec(from, token.0, token.1)
                        == percentage as int))))
                &&& forall|c2: ClassId, t2: TokenId|
                    !(c2 == token.0 && t2 == token.1) ==> final(self).token_spec(c2, t2)
                        == old(self).token_spec(c2, t2)
            }),
            final(self).next_class_id == old(self).next_class_id,
            final(self).classes@ == old(self).classes@,
            final(self).next_token_ids@ == old(self).next_token_ids@,
    {
        if from == to {
            return Ok(());
        }
        if percentage == 0 {
            return Err(Error::WrongArguments);
        }
        let (c, t) = token;
        let ti = match find_token_index(&self.tokens, c, t) {
            Some(i) => i,
            None => {
                return Err(Error::TokenNotFound);
            },
        };
        if !owners_contains(&self.tokens[ti].1.owners, from) {
            return Err(Error::NoPermission);
        }
        let si = match find_owner_index(&self.tokens_by_owner, from, c, t) {
            Some(i) => i,
            None => {
                // Unreachable when well-formed: a listed owner always has a
                // record.
                proof {
                    let ow = self.tokens@[ti as int].1.owners@;
                    let oj = choose|oj: int| 0 <= oj < ow.len() && ow[oj] == from;
                    assert(self.owns(ow[oj], self.tokens@[ti as int].0.0, self.tokens@[
                        ti as int].0.1));
                    assert(false);
                }
                return Err(Error::SenderInsufficientPercentage);
            },
        };
        let sender_pct = self.tokens_by_owner[si].1.percent_owned;
        proof {
            assert(old(self).percent_spec(from, c, t) == sender_pct as int);
        }
        if sender_pct < percentage {
            return Err(Error::SenderInsufficientPercentage);
        }
        let ri_opt = find_owner_index(&self.tokens_by_owner, to, c, t);
        let ghost old_records = self.tokens_by_owner@;
        let ghost old_tokens = self.tokens@;
        let ghost snd_key = (from, (c, t));
        let ghost rec_key = (to, (c, t));
        let ghost leave = sender_pct == percentage;
        let ghost v_to: u8 = ((old(self).percent_spec(to, c, t) + percentage as int) as u8);
        proof {
            assert(old_records[si as int].0 == snd_key);
            assert(1 <= self.tokens_by_owner@[si as int].1.percent_owned <= 100);
            assert(old(self).tokens@[ti as int].0.0 == c && old(self).tokens@[ti as int].0.1
                == t);
            assert(shares_sum(old_records, c, t) == 100);
        }
        // Credit the recipient first; every check has already passed, so
        // from here on the whole update commits.
        match ri_opt {
            Some(ri) => {
                proof {
                    assert(old_records[ri as int].0 == rec_key);
                    assert(ri != si);
                    lemma_shares_sum_pair_bound(old_records, si as int, ri as int, c, t);
                    assert(1 <= self.tokens_by_owner@[ri as int].1.percent_owned <= 100);
                }
                let p2 = self.tokens_by_owner[ri].1.percent_owned;
                assert(p2 as int + percentage as int <= 100);
                self.tokens_by_owner[ri] = (
                    (to, (c, t)),
                    TokenByOwnerData { percent_owned: p2 + percentage },
                );
                proof {
                    lemma_kv_distinct_update(
                        old_records,
                        ri as int,
                        self.tokens_by_owner@[ri as int],
                    );
                    assert(self.tokens_by_owner@[ri as int].1.percent_owned == v_to);
                    assert forall|key: (AccountId, (ClassId, TokenId))| #[trigger]
                        kv_find(self.tokens_by_owner@, key) == (if key == rec_key {
                            Some(TokenByOwnerData { percent_owned: v_to })
                        } else {
                            kv_find(old_records, key)
                        }) by {
                        lemma_kv_find_update(
                            old_records,
                            ri as int,
                            self.tokens_by_owner@[ri as int],
                            key,
                        );
                    }
                    assert forall|c2: ClassId, t2: TokenId| #[trigger]
                        shares_sum(self.tokens_by_owner@, c2, t2) == shares_sum(
                            old_records,
                            c2,
                            t2,
                        ) + (if c2 == c && t2 == t {
                            percentage as int
                        } else {
                            0int
                        }) by {
                        lemma_shares_sum_update(
                            old_records,
                            ri as int,
                            self.tokens_by_owner@[ri as int],
                            c2,
                            t2,
                        );
                    }
                    assert forall|m: int|
                        0 <= m < self.tokens_by_owner@.len() implies (
                    #[trigger] self.tokens_by_owner@[m]).0 == rec_key || kv_contains_entry(
                        old_records,
                        self.tokens_by_owner@[m],
                    ) by {
                        if m != ri as int {
                            assert(self.tokens_by_owner@[m] == old_records[m]);
                        }
                    }
                    assert(self.tokens_by_owner@[si as int] == old_records[si as int]);
                }
            },
            None => {
                proof {
                    assert(old(self).percent_spec(to, c, t) == 0);
                    assert(v_to == percentage);
                }
                self.tokens_by_owner.push(
                    ((to, (c, t)), TokenByOwnerData { percent_owned: percentage }),
                );
                proof {
                    let re = self.tokens_by_owner@.last();
                    lemma_kv_distinct_push(old_records, re);
                    assert forall|key: (AccountId, (ClassId, TokenId))| #[trigger]
                        kv_find(self.tokens_by_owner@, key) == (if key == rec_key {
                            Some(TokenByOwnerData { percent_owned: v_to })
                        } else {
                            kv_find(old_records, key)
                        }) by {
                        lemma_kv_find_push(old_records, re, key);
                    }
                    assert forall|c2: ClassId, t2: TokenId| #[trigger]
                        shares_sum(self.tokens_by_owner@, c2, t2) == shares_sum(
                            old_records,
                            c2,
                            t2,
                        ) + (if c2 == c && t2 == t {
                            percentage as int
                        } else {
                            0int
                        }) by {
                        lemma_shares_sum_push(old_records, re, c2, t2);
                    }
                    assert forall|m: int|
                        0 <= m < self.tokens_by_owner@.len() implies (
                    #[trigger] self.tokens_by_owner@[m]).0 == rec_key || kv_contains_entry(
                        old_records,
                        self.tokens_by_owner@[m],
                    ) by {
                        if m < old_records.len() {
                            assert(self.tokens_by_owner@[m] == old_records[m]);
                        }
                    }
                    assert(self.tokens_by_owner@[si as int] == old_records[si as int]);
                }
            },
        }
        let ghost mid_records = self.tokens_by_owner@;
        // Debit the sender: shrink the record, or delete it when the whole
        // share moves.
        if sender_pct == percentage {
            proof {
                crate::kv::lemma_kv_find_index(mid_records, si as int);
            }
            self.tokens_by_owner.remove(si);
            proof {
                lemma_kv_distinct_remove(mid_records, si as int);
                mid_records.remove_ensures(si as int);
                assert forall|key: (AccountId, (ClassId, TokenId))| #[trigger]
                    kv_find(self.tokens_by_owner@, key) == (if key == snd_key {
                        None::<TokenByOwnerData>
                    } else {
                        kv_find(mid_records, key)
                    }) by {
                    lemma_kv_find_remove(mid_records, si as int, key);
                }
                assert forall|c2: ClassId, t2: TokenId| #[trigger]
                    shares_sum(self.tokens_by_owner@, c2, t2) == shares_sum(mid_records, c2, t2)
                        - (if c2 == c && t2 == t {
                        percentage as int
                    } else {
                        0int
                    }) by {
                    lemma_shares_sum_remove(mid_records, si as int, c2, t2);
                }
                assert forall|m: int|
                    0 <= m < self.tokens_by_owner@.len() implies (
                #[trigger] self.tokens_by_owner@[m]).0 == snd_key || self.tokens_by_owner@[
                    m].0 == rec_key || kv_contains_entry(old_records, self.tokens_by_owner@[m])
                    by {
                    let mo: int = if m < si as int {
                        m
                    } else {
                        m + 1
                    };
                    assert(self.tokens_by_owner@[m] == mid_records[mo]);
                }
            }
        } else {
            proof {
                crate::kv::lemma_kv_find_index(mid_records, si as int);
            }
            self.tokens_by_owner[si] = (
                (from, (c, t)),
                TokenByOwnerData { percent_owned: sender_pct - percentage },
            );
            proof {
                lemma_kv_distinct_update(
                    mid_records,
                    si as int,
                    self.tokens_by_owner@[si as int],
                );
                assert forall|key: (AccountId, (ClassId, TokenId))| #[trigger]
                    kv_find(self.tokens_by_owner@, key) == (if key == snd_key {
                        Some(TokenByOwnerData { percent_owned: (sender_pct - percentage) as u8 })
                    } else {
                        kv_find(mid_records, key)
                    }) by {
                    lemma_kv_find_update(
                        mid_records,
                        si as int,
                        self.tokens_by_owner@[si as int],
                        key,
                    );
                }
                assert forall|c2: ClassId, t2: TokenId| #[trigger]
                    shares_sum(self.tokens_by_owner@, c2, t2) == shares_sum(mid_records, c2, t2)
                        - (if c2 == c && t2 == t {
                        percentage as int
                    } else {
                        0int
                    }) by {
                    lemma_shares_sum_update(
                        mid_records,
                        si as int,
                        self.tokens_by_owner@[si as int],
                        c2,
                        t2,
                    );
                }
                assert forall|m: int|
                    0 <= m < self.tokens_by_owner@.len() implies (
                #[trigger] self.tokens_by_owner@[m]).0 == snd_key || self.tokens_by_owner@[
                    m].0 == rec_key || kv_contains_entry(old_records, self.tokens_by_owner@[m])
                    by {
                    if m != si as int {
                        assert(self.tokens_by_owner@[m] == mid_records[m]);
                    }
                }
            }
        }
        // Mirror the change in the token's owner list.
        proof {
            assert(strictly_sorted(self.tokens@[ti as int].1.owners@));
        }
        let ghost owners0 = self.tokens@[ti as int].1.owners@;
        if sender_pct == percentage {
            owners_remove_sorted(&mut self.tokens[ti].1.owners, from);
        }
        if ri_opt.is_none() {
            proof {
                if owners0.contains(to) {
                    let oj = choose|oj: int| 0 <= oj < owners0.len() && owners0[oj] == to;
                    assert(old(self).owns(owners0[oj], old(self).tokens@[ti as int].0.0, old(
                        self,
                    ).tokens@[ti as int].0.1));
                    assert(false);
                }
            }
            owners_insert_sorted(&mut self.tokens[ti].1.owners, to);
        }
        proof {
            let new_tokens = self.tokens@;
            let new_records = self.tokens_by_owner@;
            let entry = new_tokens[ti as int];
            let ow = entry.1.owners@;
            assert(entry.0 == (c, t));
            assert(entry.1.metadata@ == old_tokens[ti as int].1.metadata@);
            assert(entry.1.data@ == old_tokens[ti as int].1.data@);
            // The owner list now names exactly the accounts with a record.
            assert forall|a: AccountId| #[trigger]
                ow.contains(a) <==> ((owners0.contains(a) || a == to) && !(a == from
                    && leave)) by {
                if a == to && ri_opt is None {
                    assert(ow.contains(to));
                }
            }
            assert(new_tokens == old_tokens.update(ti as int, entry)) by {
                assert(new_tokens =~= old_tokens.update(ti as int, entry));
            }
            lemma_kv_distinct_update(old_tokens, ti as int, entry);
            assert forall|key: (ClassId, TokenId)| #[trigger]
                kv_find(new_tokens, key) == (if key == (c, t) {
                    Some(entry.1)
                } else {
                    kv_find(old_tokens, key)
                }) by {
                lemma_kv_find_update(old_tokens, ti as int, entry, key);
            }
            assert forall|c2: ClassId| #[trigger]
                count_in_class(new_tokens, c2) == count_in_class(old_tokens, c2) by {
                lemma_count_update(old_tokens, ti as int, entry, c2);
            }
            assert forall|c2: ClassId, t2: TokenId| #[trigger]
                shares_sum(new_records, c2, t2) == shares_sum(old_records, c2, t2) by {
                assert(shares_sum(mid_records, c2, t2) == shares_sum(old_records, c2, t2) + (
                if c2 == c && t2 == t {
                    percentage as int
                } else {
                    0int
                }));
            }
            // Well-formedness is restored clause by clause.
            assert forall|i: int|
                0 <= i < new_tokens.len() implies strictly_sorted(
                (#[trigger] new_tokens[i]).1.owners@,
            ) by {
                if i != ti as int {
                    assert(new_tokens[i] == old_tokens[i]);
                }
            }
            assert forall|k: int| 0 <= k < new_records.len() implies {
                let e = #[trigger] new_records[k];
                1 <= e.1.percent_owned <= 100 && match kv_find(new_tokens, e.0.1) {
                    Some(i2) => i2.owners@.contains(e.0.0),
                    None => false,
                }
            } by {
                let e = new_records[k];
                crate::kv::lemma_kv_find_index(new_records, k);
                if e.0 == rec_key {
                    assert(kv_find(new_records, rec_key) == Some(
                        TokenByOwnerData { percent_owned: v_to },
                    ));
                    assert(e.1.percent_owned == v_to);
                    assert(1 <= v_to <= 100);
                    assert(ow.contains(to));
                    assert(kv_find(new_tokens, (c, t)) == Some(entry.1));
                    assert(e.0.1 == (c, t));
                } else if e.0 == snd_key {
                    assert(kv_find(new_records, snd_key) is Some);
                    assert(!leave);
                    assert(e.1.percent_owned == sender_pct - percentage);
                    assert(ow.contains(from));
                    assert(e.0.1 == (c, t));
                } else {
                    assert(kv_contains_entry(old_records, e));
                    let n = choose|n: int|
                        0 <= n < old_records.len() && old_records[n] == e;
                    assert(1 <= e.1.percent_owned <= 100);
                    assert(kv_find(old_tokens, e.0.1) is Some);
                    if e.0.1 == (c, t) {
                        assert(e.0.0 != to && e.0.0 != from);
                        assert(kv_find(old_tokens, (c, t)) == Some(old_tokens[ti as int].1));
                        assert(owners0.contains(e.0.0));
                        assert(ow.contains(e.0.0));
                    } else {
                        assert(kv_find(new_tokens, e.0.1) == kv_find(old_tokens, e.0.1));
                    }
                }
            }
            assert(self.records_match_tokens());
            assert forall|i: int, j: int|
                0 <= i < new_tokens.len() && 0 <= j < (
                #[trigger] new_tokens[i]).1.owners@.len() implies self.owns(
                #[trigger] new_tokens[i].1.owners@[j],
                new_tokens[i].0.0,
                new_tokens[i].0.1,
            ) by {
                let a = new_tokens[i].1.owners@[j];
                let c2 = new_tokens[i].0.0;
                let t2 = new_tokens[i].0.1;
                assert((c2, t2) == new_tokens[i].0);
                if i != ti as int {
                    assert(new_tokens[i] == old_tokens[i]);
                    assert(old(self).owns(a, c2, t2));
                    assert((c2, t2) != (c, t));
                    assert((a, (c2, t2)) != snd_key && (a, (c2, t2)) != rec_key);
                } else {
                    assert(ow.contains(a));
                    if a == to {
                        assert(kv_find(new_records, rec_key) is Some);
                    } else if a == from {
                        assert(!leave);
                        assert(kv_find(new_records, snd_key) is Some);
                    } else {
                        assert(owners0.contains(a));
                        let oj = choose|oj: int| 0 <= oj < owners0.len() && owners0[oj] == a;
                        assert(old(self).owns(owners0[oj], old(self).tokens@[ti as int].0.0,
                            old(self).tokens@[ti as int].0.1));
                        assert(kv_find(old_records, (a, (c, t))) is Some);
                    }
                }
            }
            assert forall|i: int|
                0 <= i < new_tokens.len() implies shares_sum(
                new_records,
                (#[trigger] new_tokens[i]).0.0,
                new_tokens[i].0.1,
            ) == 100 by {
                let c2 = new_tokens[i].0.0;
                let t2 = new_tokens[i].0.1;
                if i != ti as int {
                    assert(new_tokens[i] == old_tokens[i]);
                }
                assert(shares_sum(old_records, c2, t2) == 100);
            }
            assert forall|jc: int|
                0 <= jc < self.classes@.len() implies (
            #[trigger] self.classes@[jc]).1.total_issuance as int == count_in_class(
                new_tokens,
                self.classes@[jc].0,
            ) by {
                assert(self.classes@[jc].1.total_issuance as int == count_in_class(
                    old_tokens,
                    self.classes@[jc].0,
                ));
            }
            assert forall|i: int|
                0 <= i < new_tokens.len() implies kv_find(
                self.classes@,
                (#[trigger] new_tokens[i]).0.0,
            ) is Some by {
                if i != ti as int {
                    assert(new_tokens[i] == old_tokens[i]);
                } else {
                    assert(new_tokens[i].0 == old_tokens[i].0);
                }
            }
            assert forall|i: int|
                0 <= i < new_tokens.len() implies (#[trigger] new_tokens[i]).0.1
                < self.next_token_spec(new_tokens[i].0.0) by {
                assert(new_tokens[i].0 == old_tokens[i].0);
            }
            assert(self.wf());
            assert(kv_find(new_records, rec_key) == Some(
                TokenByOwnerData { percent_owned: v_to },
            ));
        }
        Ok(())
    }
}

/// Removes every ownership record of token `(c, t)`, leaving all other
/// records exactly as they were.
fn purge_token_records(v: &mut Vec<OwnerEntry>, c: ClassId, t: TokenId)
    requires
        kv_distinct(old(v)@),
    ensures
        kv_distinct(final(v)@),
        forall|key: (AccountId, (ClassId, TokenId))| #[trigger]
            kv_find(final(v)@, key) == (if key.1 == (c, t) {
                None::<TokenByOwnerData>
            } else {
                kv_find(old(v)@, key)
            }),
        forall|c2: ClassId, t2: TokenId| #[trigger]
            shares_sum(final(v)@, c2, t2) == (if c2 == c && t2 == t {
                0int
            } else {
                shares_sum(old(v)@, c2, t2)
            }),
        forall|m: int|
            0 <= m < final(v)@.len() ==> kv_contains_entry(old(v)@, #[trigger] final(v)@[m]),
        forall|m: int| 0 <= m < final(v)@.len() ==> (#[trigger] final(v)@[m]).0.1 != (c, t),
{
    let ghost orig = v@;
    let mut out: Vec<OwnerEntry> = Vec::new();
    let mut i: usize = 0;
    proof {
        assert(orig.subrange(0, 0) =~= Seq::<OwnerEntry>::empty());
    }
    while i < v.len()
        invariant
            i <= v@.len(),
            v@ == orig,
            kv_distinct(orig),
            kv_distinct(out@),
            forall|key: (AccountId, (ClassId, TokenId))| #[trigger]
                kv_find(out@, key) == (if key.1 == (c, t) {
                    None::<TokenByOwnerData>
                } else {
                    kv_find(orig.subrange(0, i as int), key)
                }),
            forall|c2: ClassId, t2: TokenId| #[trigger]
                shares_sum(out@, c2, t2) == (if c2 == c && t2 == t {
                    0int
                } else {
                    shares_sum(orig.subrange(0, i as int), c2, t2)
                }),
            forall|m: int|
                0 <= m < out@.len() ==> kv_contains_entry(orig, #[trigger] out@[m]),
            forall|m: int| 0 <= m < out@.len() ==> (#[trigger] out@[m]).0.1 != (c, t),
        decreases v@.len() - i,
    {
        let e = v[i];
        let ghost pre = orig.subrange(0, i as int);
        let ghost post = orig.subrange(0, i as int + 1);
        proof {
            assert(post.last() == orig[i as int]);
            assert(post.drop_last() =~= pre);
        }
        let (ka, (kc, kt)) = e.0;
        if kc == c && kt == t {
            // A record of the burned token: drop it.
            proof {
                assert(e.0.1 == (c, t));
                assert forall|key: (AccountId, (ClassId, TokenId))| #[trigger]
                    kv_find(out@, key) == (if key.1 == (c, t) {
                        None::<TokenByOwnerData>
                    } else {
                        kv_find(post, key)
                    }) by {
                    if key.1 != (c, t) {
                        assert(orig[i as int].0 != key);
                    }
                }
                assert forall|c2: ClassId, t2: TokenId| #[trigger]
                    shares_sum(out@, c2, t2) == (if c2 == c && t2 == t {
                        0int
                    } else {
                        shares_sum(post, c2, t2)
                    }) by {
                    if !(c2 == c && t2 == t) {
                        assert(share_contrib(orig[i as int], c2, t2) == 0);
                    }
                }
            }
        } else {
            let ghost old_out = out@;
            out.push(e);
            proof {
                assert(e.0.1 != (c, t)) by {
                    if e.0.1 == (c, t) {
                        assert(e.0.1.0 == c && e.0.1.1 == t);
                    }
                }
                // The key is fresh in `out`: `out` mirrors a prefix of a
                // table with distinct keys.
                assert(kv_find(old_out, e.0) == kv_find(pre, e.0));
                lemma_kv_find_exists(pre, e.0);
                if kv_find(pre, e.0) is Some {
                    let n = choose|n: int| 0 <= n < pre.len() && pre[n].0 == e.0;
                    assert(orig[n].0 == orig[i as int].0);
                    assert(false);
                }
                lemma_kv_distinct_push(old_out, e);
                assert forall|key: (AccountId, (ClassId, TokenId))| #[trigger]
                    kv_find(out@, key) == (if key.1 == (c, t) {
                        None::<TokenByOwnerData>
                    } else {
                        kv_find(post, key)
                    }) by {
                    lemma_kv_find_push(old_out, e, key);
                    if key.1 == (c, t) {
                        assert(key != e.0);
                    }
                }
                assert forall|c2: ClassId, t2: TokenId| #[trigger]
                    shares_sum(out@, c2, t2) == (if c2 == c && t2 == t {
                        0int
                    } else {
                        shares_sum(post, c2, t2)
                    }) by {
                    lemma_shares_sum_push(old_out, e, c2, t2);
                    if c2 == c && t2 == t {
                        assert(share_contrib(e, c2, t2) == 0);
                    }
                }
                assert forall|m: int|
                    0 <= m < out@.len() implies kv_contains_entry(orig, #[trigger] out@[m]) by {
                    if m < old_out.len() {
                        assert(out@[m] == old_out[m]);
                    } else {
                        assert(out@[m] == orig[i as int]);
                    }
                }
            }
        }
        i = i + 1;
    }
    proof {
        assert(orig.subrange(0, orig.len() as int) =~= orig);
    }
    *v = out;
}

/// Inserts `a` into a sorted owner list at its sorted position.
fn owners_insert_sorted(v: &mut Vec<AccountId>, a: AccountId)
    requires
        strictly_sorted(old(v)@),
        !old(v)@.contains(a),
    ensures
        strictly_sorted(final(v)@),
        final(v)@.len() == old(v)@.len() + 1,
        forall|x: AccountId| final(v)@.contains(x) <==> (old(v)@.contains(x) || x == a),
{
    let ghost orig = v@;
    let mut i: usize = 0;
    while i < v.len() && v[i] < a
        invariant
            i <= v@.len(),
            v@ == orig,
            forall|j: int| 0 <= j < i ==> v@[j] < a,
        decreases v@.len() - i,
    {
        i = i + 1;
    }
    // Everything before `i` is below `a`, everything from `i` on is above.
    proof {
        assert forall|j: int| i <= j < v@.len() implies v@[j] > a by {
            if j > i {
                assert(v@[i as int] < v@[j]);
            }
            if v@[j] == a {
                assert(v@.contains(a));
            }
        }
    }
    v.insert(i, a);
    proof {
        orig.insert_ensures(i as int, a);
        assert forall|x: int, y: int| 0 <= x < y < v@.len() implies v@[x] < v@[y] by {
            assert(v@[x] == if x < i {
                orig[x]
            } else if x == i {
                a
            } else {
                orig[x - 1]
            });
            assert(v@[y] == if y < i {
                orig[y]
            } else if y == i {
                a
            } else {
                orig[y - 1]
            });
        }
        assert forall|x: AccountId| v@.contains(x) <==> (orig.contains(x) || x == a) by {
            if v@.contains(x) {
                let m = choose|m: int| 0 <= m < v@.len() && v@[m] == x;
                if m != i {
                    let n: int = if m < i {
                        m
                    } else {
                        m - 1
                    };
                    assert(orig[n] == x);
                    assert(orig.contains(x));
                }
            }
            if orig.contains(x) {
                let n = choose|n: int| 0 <= n < orig.len() && orig[n] == x;
                let m: int = if n < i {
                    n
                } else {
                    n + 1
                };
                assert(v@[m] == x);
                assert(v@.contains(x));
            }
            if x == a {
                assert(v@[i as int] == a);
                assert(v@.contains(x));
            }
        }
    }
}

/// Removes `a` from a sorted owner list.
fn owners_remove_sorted(v: &mut Vec<AccountId>, a: AccountId)
    requires
        strictly_sorted(old(v)@),
        old(v)@.contains(a),
    ensures
        strictly_sorted(final(v)@),
        final(v)@.len() == old(v)@.len() - 1,
        forall|x: AccountId| final(v)@.contains(x) <==> (old(v)@.contains(x) && x != a),
{
    let ghost orig = v@;
    let mut i: usize = 0;
    while i < v.len() && v[i] != a
        invariant
            i <= v@.len(),
            v@ == orig,
            forall|j: int| 0 <= j < i ==> v@[j] != a,
        decreases v@.len() - i,
    {
        i = i + 1;
    }
    proof {
        if i == v@.len() {
            assert(!v@.contains(a));
            assert(false);
        }
    }
    v.remove(i);
    proof {
        orig.remove_ensures(i as int);
        assert forall|x: int, y: int| 0 <= x < y < v@.len() implies v@[x] < v@[y] by {
            let xo: int = if x < i {
                x
            } else {
                x + 1
            };
            let yo: int = if y < i {
                y
            } else {
                y + 1
            };
            assert(v@[x] == orig[xo] && v@[y] == orig[yo]);
        }
        assert forall|x: AccountId| v@.contains(x) <==> (orig.contains(x) && x != a) by {
            if v@.contains(x) {
                let m = choose|m: int| 0 <= m < v@.len() && v@[m] == x;
                let n: int = if m < i {
                    m
                } else {
                    m + 1
                };
                assert(orig[n] == x);
                assert(orig.contains(x));
                // `a` sits only at index `i` in a strictly sorted list.
                if x == a {
                    assert(orig[n] == orig[i as int]);
                    assert(n != i);
                    assert(false);
                }
            }
            if orig.contains(x) && x != a {
                let n = choose|n: int| 0 <= n < orig.len() && orig[n] == x;
                assert(n != i);
                let m: int = if n < i {
                    n
                } else {
                    n - 1
                };
                assert(v@[m] == x);
                assert(v@.contains(x));
            }
        }
    }
}

} // verus!
