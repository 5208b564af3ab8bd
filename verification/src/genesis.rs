//! Bulk loading of an initial ledger state.
//!
//! A `GenesisConfig` lists classes to create and, for each, the tokens to
//! mint into it. `build` applies the whole list to a ledger by calling
//! `create_class` and `mint`; initial state is assumed well-formed, so any
//! failure is fatal to initialization and the caller aborts startup.

use vstd::prelude::*;
use crate::kv::{kv_find, lemma_kv_find_exists};
use crate::pallet::Pallet;
use crate::types::{AccountId, ClassId, Error, TokenByOwnerData, TokenId};

verus! {

/// One token to mint at genesis: (owner, metadata, token data).
pub type GenesisTokenData = (AccountId, Vec<u8>, Vec<u8>);

/// One class to create at genesis: (class owner, class metadata, class
/// data, tokens of the class).
pub type GenesisTokens = (AccountId, Vec<u8>, Vec<u8>, Vec<GenesisTokenData>);

/// The initial contents of the ledger.
pub struct GenesisConfig {
    /// The classes to create, each with the tokens minted into it.
    pub tokens: Vec<GenesisTokens>,
}

impl Default for GenesisConfig {
    /// An empty genesis: nothing to load.
    fn default() -> (c: GenesisConfig)
        ensures
            c.tokens@.len() == 0,
    {
        GenesisConfig { tokens: Vec::new() }
    }
}

/// Token `t` of genesis class `cid` has been applied to `p`: the token is
/// live with the listed metadata and payload, its sole owner is the listed
/// account, and that account holds a record of 100.
pub open spec fn genesis_token_applied(
    p: Pallet,
    td: GenesisTokenData,
    cid: ClassId,
    t: TokenId,
) -> bool {
    &&& (p.token_spec(cid, t) matches Some(ti) && ti.metadata@ == td.1@ && ti.data@ == td.2@
        && ti.owners@ == seq![td.0])
    &&& p.share_spec(td.0, cid, t) == Some(TokenByOwnerData { percent_owned: 100 })
}

/// Genesis entry `entry` has been applied to `p` as class `cid`: the class
/// is live with the listed owner, metadata and payload, its issuance and
/// token counter both equal the number of listed tokens, and every listed
/// token has been applied under its position as token identifier.
pub open spec fn genesis_class_applied(p: Pallet, entry: GenesisTokens, cid: ClassId) -> bool {
    &&& (p.class_spec(cid) matches Some(ci) && ci.owner == entry.0 && ci.metadata@ == entry.1@
        && ci.data@ == entry.2@ && ci.total_issuance as int == entry.3@.len())
    &&& p.next_token_spec(cid) as int == entry.3@.len()
    &&& forall|j: int|
        0 <= j < entry.3@.len() ==> genesis_token_applied(p, entry.3@[j], cid, j as TokenId)
}

/// Copies a byte sequence.
fn clone_bytes(v: &Vec<u8>) -> (r: Vec<u8>)
    ensures
        r@ == v@,
{
    let mut r: Vec<u8> = Vec::new();
    let mut i: usize = 0;
    while i < v.len()
        invariant
            i <= v@.len(),
            r@ == v@.subrange(0, i as int),
        decreases v@.len() - i,
    {
        r.push(v[i]);
        proof {
            assert(r@ =~= v@.subrange(0, i as int + 1));
        }
        i = i + 1;
    }
    proof {
        assert(r@ =~= v@);
    }
    r
}

impl GenesisConfig {
    /// Applies the whole genesis list to `pallet`, creating each class and
    /// minting each of its tokens to its listed owner.
    ///
    /// Succeeds exactly when enough class identifiers remain; otherwise it
    /// fails with `NoAvailableClassId` before touching the ledger, and the
    /// caller treats the failure as fatal to initialization. On success the
    /// classes get the identifiers `old(pallet).next_class_id`, plus 1, and
    /// so on in listed order; tokens get identifiers 0, 1, ... in listed
    /// order within their class; everything else in the ledger is left
    /// exactly as it was.
    pub fn build(&self, pallet: &mut Pallet) -> (r: Result<(), Error>)
        requires
            old(pallet).wf(),
        ensures
            final(pallet).wf(),
            r == Ok::<(), Error>(()) <==> old(pallet).next_class_id as int + self.tokens@.len()
                <= u64::MAX as int,
            r is Err ==> r == Err::<(), Error>(Error::NoAvailableClassId) && *final(pallet)
                == *old(pallet),
            r is Ok ==> {
                let base = old(pallet).next_class_id;
                &&& final(pallet).next_class_id as int == base as int + self.tokens@.len()
                &&& forall|k: int|
                    0 <= k < self.tokens@.len() ==> genesis_class_applied(
                        *final(pallet),
                        self.tokens@[k],
                        (base + k) as ClassId,
                    )
                &&& forall|c: ClassId|
                    !(base <= c < base as int + self.tokens@.len()) ==> final(pallet).class_spec(c) == old(pallet).class_spec(c)
                &&& forall|c: ClassId|
                    !(base <= c < base as int + self.tokens@.len()) ==> final(pallet).next_token_spec(c) == old(pallet).next_token_spec(c)
                &&& forall|c: ClassId, t: TokenId|
                    !(base <= c < base as int + self.tokens@.len()) ==> final(pallet).token_spec(c, t) == old(pallet).token_spec(c, t)
                &&& forall|a: AccountId, c: ClassId, t: TokenId|
                    !(base <= c < base as int + self.tokens@.len()) ==> final(pallet).share_spec(a, c, t) == old(pallet).share_spec(a, c, t)
            },
    {
        let n = self.tokens.len();
        if (n as u64) > u64::MAX - pallet.next_class_id {
            return Err(Error::NoAvailableClassId);
        }
        let base = pallet.next_class_id;
        let mut k: usize = 0;
        while k < n
            invariant
                pallet.wf(),
                n == self.tokens@.len(),
                k <= n,
                base == old(pallet).next_class_id,
                base as int + n <= u64::MAX as int,
                pallet.next_class_id as int == base as int + k,
                forall|kk: int|
                    0 <= kk < k ==> genesis_class_applied(
                        *pallet,
                        self.tokens@[kk],
                        (base + kk) as ClassId,
                    ),
                forall|c: ClassId|
                    !(base <= c < base as int + k) ==> pallet.class_spec(c) == old(
                        pallet,
                    ).class_spec(c),
                forall|c: ClassId|
                    !(base <= c < base as int + k) ==> pallet.next_token_spec(c) == old(
                        pallet,
                    ).next_token_spec(c),
                forall|c: ClassId, t: TokenId|
                    !(base <= c < base as int + k) ==> pallet.token_spec(c, t) == old(
                        pallet,
                    ).token_spec(c, t),
                forall|a: AccountId, c: ClassId, t: TokenId|
                    !(base <= c < base as int + k) ==> pallet.share_spec(a, c, t) == old(
                        pallet,
                    ).share_spec(a, c, t),
            decreases n - k,
        {
            let ghost pre_class = *pallet;
            let entry = &self.tokens[k];
            let class_metadata = clone_bytes(&entry.1);
            let class_data = clone_bytes(&entry.2);
            let cid = match pallet.create_class(entry.0, class_metadata, class_data) {
                Ok(id) => id,
                Err(e) => {
                    proof {
                        assert(false);
                    }
                    return Err(e);
                },
            };
            assert(cid as int == base as int + k);
            // A fresh class has no token-id counter entry yet: every
            // counter entry belongs to a live class, and `cid` was not
            // live.
            proof {
                lemma_kv_find_exists(pre_class.next_token_ids@, cid);
                if kv_find(pre_class.next_token_ids@, cid) is Some {
                    let m2 = choose|m2: int|
                        0 <= m2 < pre_class.next_token_ids@.len()
                            && pre_class.next_token_ids@[m2].0 == cid;
                    assert(pre_class.has_class(cid));
                    lemma_kv_find_exists(pre_class.classes@, cid);
                    let j2 = choose|j2: int|
                        0 <= j2 < pre_class.classes@.len() && pre_class.classes@[j2].0 == cid;
                    assert(pre_class.classes@[j2].0 < pre_class.next_class_id);
                    assert(false);
                }
                assert(pallet.next_token_ids@ == pre_class.next_token_ids@);
                assert(pallet.next_token_spec(cid) == 0);
            }
            let m = entry.3.len();
            let mut j: usize = 0;
            while j < m
                invariant
                    pallet.wf(),
                    n == self.tokens@.len(),
                    k < n,
                    m == self.tokens@[k as int].3@.len(),
                    j <= m,
                    base as int + n <= u64::MAX as int,
                    cid as int == base as int + k,
                    pallet.next_class_id as int == base as int + k + 1,
                    pallet.next_token_spec(cid) as int == j,
                    (pallet.class_spec(cid) matches Some(ci) && ci.owner == self.tokens@[
                        k as int].0 && ci.metadata@ == self.tokens@[k as int].1@ && ci.data@
                        == self.tokens@[k as int].2@ && ci.total_issuance as int == j),
                    forall|jj: int|
                        0 <= jj < j ==> genesis_token_applied(
                            *pallet,
                            self.tokens@[k as int].3@[jj],
                            cid,
                            jj as TokenId,
                        ),
                    forall|kk: int|
                        0 <= kk < k ==> genesis_class_applied(
                            *pallet,
                            self.tokens@[kk],
                            (base + kk) as ClassId,
                        ),
                    forall|c: ClassId|
                        !(base <= c < base as int + k + 1) ==> pallet.class_spec(c) == old(
                            pallet,
                        ).class_spec(c),
                    forall|c: ClassId|
                        !(base <= c < base as int + k + 1) ==> pallet.next_token_spec(c)
                            == old(pallet).next_token_spec(c),
                    forall|c: ClassId, t: TokenId|
                        !(base <= c < base as int + k + 1) ==> pallet.token_spec(c, t) == old(
                            pallet,
                        ).token_spec(c, t),
                    forall|a: AccountId, c: ClassId, t: TokenId|
                        !(base <= c < base as int + k + 1) ==> pallet.share_spec(a, c, t)
                            == old(pallet).share_spec(a, c, t),
                decreases m - j,
            {
                let td = &self.tokens[k].3[j];
                let token_metadata = clone_bytes(&td.1);
                let token_data = clone_bytes(&td.2);
                let ghost pre_mint = *pallet;
                match pallet.mint(td.0, cid, token_metadata, token_data) {
                    Ok(tid) => {
                        assert(tid as int == j);
                    },
                    Err(e) => {
                        proof {
                            assert(pre_mint.next_token_spec(cid) as int == j);
                            assert(j < u64::MAX);
                            assert(false);
                        }
                        return Err(e);
                    },
                };
                j = j + 1;
            }
            k = k + 1;
        }
        Ok(())
    }
}

} // verus!
