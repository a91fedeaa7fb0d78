use vstd::prelude::*;

use crate::balances::Balances;
use crate::types::{
    AccountId, Balance, Collection, CollectionId, CollectionView, Error, ItemId, NftView, NFT,
    MAX_ITEMS_PER_COLLECTION, MAX_METADATA_LEN, REGISTRATION_FEE_MULTIPLIER,
};

verus! {

/// The views of the collections that `m` stores.
pub open spec fn collection_views(m: Map<CollectionId, Collection>) -> Map<CollectionId, CollectionView> {
    m.map_values(|c: Collection| c@)
}

/// The views of the items that `m` stores.
pub open spec fn nft_views(m: Map<(CollectionId, ItemId), NFT>) -> Map<(CollectionId, ItemId), NftView> {
    m.map_values(|n: NFT| n@)
}

/// The fee that registering as an artist costs: a fixed multiple of the
/// currency's minimum balance, saturated at the largest balance.
pub open spec fn registration_fee(minimum_balance: Balance) -> Balance {
    if minimum_balance * REGISTRATION_FEE_MULTIPLIER > Balance::MAX {
        Balance::MAX
    } else {
        (minimum_balance * REGISTRATION_FEE_MULTIPLIER) as Balance
    }
}

/// The mathematical state of the ledger: its storage, key by key.
pub struct LedgerView {
    /// Who has registered; an account that is absent has not.
    pub artists: Map<AccountId, bool>,
    pub collections: Map<CollectionId, CollectionView>,
    /// Items by collection id and item id.
    pub nfts: Map<(CollectionId, ItemId), NftView>,
    /// The next item id of each collection; absent means zero.
    pub next_item_id: Map<CollectionId, ItemId>,
    pub next_collection_id: CollectionId,
    /// The account that receives registration fees.
    pub account: AccountId,
}

impl LedgerView {
    pub open spec fn is_artist(self, who: AccountId) -> bool {
        self.artists.contains_key(who) && self.artists[who]
    }

    /// The id that the next item minted into `collection_id` gets.
    pub open spec fn next_item(self, collection_id: CollectionId) -> ItemId {
        if self.next_item_id.contains_key(collection_id) {
            self.next_item_id[collection_id]
        } else {
            0
        }
    }

    /// What holds between the keys and values of the storage after every call.
    pub open spec fn wf(self) -> bool {
        &&& forall|k: (CollectionId, ItemId)| #[trigger]
            self.nfts.contains_key(k) ==> k.1 < self.next_item(k.0) && k.0
                < self.next_collection_id && self.nfts[k].metadata.len() <= MAX_METADATA_LEN
        &&& forall|c: CollectionId| #[trigger]
            self.collections.contains_key(c) ==> self.collection_wf(c)
    }

    /// A stored collection is below the collection counter, its metadata and
    /// id list are within their bounds, and the id list names each of the
    /// collection's stored items exactly once and nothing else.
    pub open spec fn collection_wf(self, c: CollectionId) -> bool {
        let col = self.collections[c];
        &&& c < self.next_collection_id
        &&& col.metadata.len() <= MAX_METADATA_LEN
        &&& col.nfts.len() <= MAX_ITEMS_PER_COLLECTION
        &&& col.nfts.no_duplicates()
        &&& forall|j: int| 0 <= j < col.nfts.len() ==> self.nfts.contains_key((c, #[trigger] col.nfts[j]))
        &&& forall|i: ItemId| #[trigger] self.nfts.contains_key((c, i)) ==> col.nfts.contains(i)
    }

    // ---- artists ----

    pub open spec fn register_artist_result(self, balances: Balances, caller: AccountId) -> Result<(), Error> {
        if self.artists.contains_key(caller) {
            Err(Error::AlreadyRegistered)
        } else {
            match balances.transfer_outcome(
                caller,
                self.account,
                registration_fee(balances.spec_minimum_balance()),
                true,
            ) {
                Err(e) => Err(Error::Currency(e)),
                Ok(_) => Ok(()),
            }
        }
    }

    pub open spec fn after_register_artist(self, caller: AccountId) -> LedgerView {
        LedgerView { artists: self.artists.insert(caller, true), ..self }
    }

    // ---- collections ----

    pub open spec fn create_collection_result(self, caller: AccountId, metadata: Seq<u8>) -> Result<
        CollectionId,
        Error,
    > {
        if !self.is_artist(caller) {
            Err(Error::NotRegisteredArtist)
        } else if metadata.len() > MAX_METADATA_LEN {
            Err(Error::MetadataInvalid)
        } else if self.next_collection_id == CollectionId::MAX {
            Err(Error::IdsExhausted)
        } else {
            Ok(self.next_collection_id)
        }
    }

    pub open spec fn after_create_collection(self, caller: AccountId, metadata: Seq<u8>) -> LedgerView {
        let col = CollectionView { creator: caller, metadata, is_frozen: false, nfts: Seq::empty() };
        LedgerView {
            collections: self.collections.insert(self.next_collection_id, col),
            next_collection_id: (self.next_collection_id + 1) as CollectionId,
            ..self
        }
    }

    pub open spec fn update_collection_result(
        self,
        caller: AccountId,
        id: CollectionId,
        metadata: Seq<u8>,
    ) -> Result<(), Error> {
        if !self.collections.contains_key(id) {
            Err(Error::CollectionNotFound)
        } else if self.collections[id].is_frozen {
            Err(Error::CollectionFrozen)
        } else if self.collections[id].creator != caller {
            Err(Error::NotCollectionOwner)
        } else if metadata.len() > MAX_METADATA_LEN {
            Err(Error::MetadataInvalid)
        } else {
            Ok(())
        }
    }

    pub open spec fn after_update_collection(self, id: CollectionId, metadata: Seq<u8>) -> LedgerView {
        let col = self.collections[id];
        LedgerView {
            collections: self.collections.insert(id, CollectionView { metadata, ..col }),
            ..self
        }
    }

    pub open spec fn freeze_collection_result(self, caller: AccountId, id: CollectionId) -> Result<(), Error> {
        if !self.collections.contains_key(id) {
            Err(Error::CollectionNotFound)
        } else if self.collections[id].creator != caller {
            Err(Error::NotCollectionOwner)
        } else {
            Ok(())
        }
    }

    pub open spec fn after_freeze_collection(self, id: CollectionId) -> LedgerView {
        let col = self.collections[id];
        LedgerView {
            collections: self.collections.insert(id, CollectionView { is_frozen: true, ..col }),
            ..self
        }
    }

    /// A frozen collection cannot be deleted either.
    pub open spec fn delete_collection_result(self, caller: AccountId, id: CollectionId) -> Result<(), Error> {
        if !self.collections.contains_key(id) {
            Err(Error::CollectionNotFound)
        } else if self.collections[id].creator != caller {
            Err(Error::NotCollectionOwner)
        } else if self.collections[id].is_frozen {
            Err(Error::CollectionFrozen)
        } else {
            Ok(())
        }
    }

    /// Deleting a collection leaves its items in place.
    pub open spec fn after_delete_collection(self, id: CollectionId) -> LedgerView {
        LedgerView { collections: self.collections.remove(id), ..self }
    }

    // ---- minting ----

    pub open spec fn mint_nft_result(self, collection_id: CollectionId, metadata: Seq<u8>) -> Result<ItemId, Error> {
        if !self.collections.contains_key(collection_id) {
            Err(Error::CollectionNotFound)
        } else if metadata.len() > MAX_METADATA_LEN {
            Err(Error::MetadataInvalid)
        } else if self.collections[collection_id].nfts.len() >= MAX_ITEMS_PER_COLLECTION {
            Err(Error::CapacityExceeded)
        } else if self.next_item(collection_id) == ItemId::MAX {
            Err(Error::IdsExhausted)
        } else {
            Ok(self.next_item(collection_id))
        }
    }

    /// The state after one item is minted: stored under the collection's next
    /// item id, listed at the end of the collection, and the counter advanced.
    pub open spec fn after_mint(
        self,
        collection_id: CollectionId,
        caller: AccountId,
        metadata: Seq<u8>,
        price: Option<Balance>,
    ) -> LedgerView {
        let id = self.next_item(collection_id);
        let col = self.collections[collection_id];
        let nft = NftView { owner: caller, metadata, is_sold: false, price };
        LedgerView {
            nfts: self.nfts.insert((collection_id, id), nft),
            collections: self.collections.insert(collection_id, CollectionView { nfts: col.nfts.push(id), ..col }),
            next_item_id: self.next_item_id.insert(collection_id, (id + 1) as ItemId),
            ..self
        }
    }

    /// Why the entry at `i` of a batch could not be minted, with the entries
    /// before it minted.
    pub open spec fn batch_entry_error(self, collection_id: CollectionId, metadata_list: Seq<Seq<u8>>, i: int) -> Option<Error> {
        if metadata_list[i].len() > MAX_METADATA_LEN {
            Some(Error::MetadataInvalid)
        } else if self.collections[collection_id].nfts.len() + i >= MAX_ITEMS_PER_COLLECTION {
            Some(Error::CapacityExceeded)
        } else if self.next_item(collection_id) + i >= ItemId::MAX {
            Some(Error::IdsExhausted)
        } else {
            None
        }
    }

    /// The error of the first entry, from `i` on, that cannot be minted.
    pub open spec fn batch_first_error(self, collection_id: CollectionId, metadata_list: Seq<Seq<u8>>, i: int) -> Option<Error>
        decreases metadata_list.len() - i,
    {
        if i < 0 || i >= metadata_list.len() {
            None
        } else {
            match self.batch_entry_error(collection_id, metadata_list, i) {
                Some(e) => Some(e),
                None => self.batch_first_error(collection_id, metadata_list, i + 1),
            }
        }
    }

    pub open spec fn batch_mint_nft_result(self, collection_id: CollectionId, metadata_list: Seq<Seq<u8>>) -> Result<(), Error> {
        if !self.collections.contains_key(collection_id) {
            Err(Error::CollectionNotFound)
        } else {
            match self.batch_first_error(collection_id, metadata_list, 0) {
                Some(e) => Err(e),
                None => Ok(()),
            }
        }
    }

    /// The state after the first `k` entries of a batch are minted, in order.
    pub open spec fn after_batch_mint(
        self,
        collection_id: CollectionId,
        caller: AccountId,
        metadata_list: Seq<Seq<u8>>,
        k: nat,
    ) -> LedgerView
        decreases k,
    {
        if k == 0 {
            self
        } else {
            self.after_batch_mint(collection_id, caller, metadata_list, (k - 1) as nat).after_mint(
                collection_id,
                caller,
                metadata_list[k - 1],
                None,
            )
        }
    }

    // ---- items ----

    pub open spec fn transfer_nft_result(self, caller: AccountId, collection_id: CollectionId, item_id: ItemId) -> Result<(), Error> {
        if !self.nfts.contains_key((collection_id, item_id)) {
            Err(Error::NFTNotFound)
        } else if self.nfts[(collection_id, item_id)].owner != caller {
            Err(Error::NotNFTOwner)
        } else {
            Ok(())
        }
    }

    /// The state after an item changes hands: it belongs to `to` and counts
    /// as sold.
    pub open spec fn after_transfer(self, collection_id: CollectionId, item_id: ItemId, to: AccountId) -> LedgerView {
        let nft = self.nfts[(collection_id, item_id)];
        LedgerView {
            nfts: self.nfts.insert((collection_id, item_id), NftView { owner: to, is_sold: true, ..nft }),
            ..self
        }
    }

    /// A sale is refused for an absent, sold, own or unpriced item, or when
    /// the buyer cannot pay the price and stay alive.
    pub open spec fn buy_nft_result(
        self,
        balances: Balances,
        buyer: AccountId,
        collection_id: CollectionId,
        item_id: ItemId,
    ) -> Result<(), Error> {
        let k = (collection_id, item_id);
        if !self.nfts.contains_key(k) {
            Err(Error::NFTNotFound)
        } else if self.nfts[k].is_sold {
            Err(Error::NFTAlreadySold)
        } else if self.nfts[k].owner == buyer {
            Err(Error::NotNFTOwner)
        } else {
            match self.nfts[k].price {
                None => Err(Error::NotForSale),
                Some(price) => match balances.transfer_outcome(buyer, self.nfts[k].owner, price, true) {
                    Err(e) => Err(Error::Currency(e)),
                    Ok(_) => Ok(()),
                },
            }
        }
    }

    /// A sold item cannot be burned; nor can one whose collection is gone.
    pub open spec fn burn_nft_result(self, caller: AccountId, collection_id: CollectionId, item_id: ItemId) -> Result<(), Error> {
        let k = (collection_id, item_id);
        if !self.nfts.contains_key(k) {
            Err(Error::NFTNotFound)
        } else if self.nfts[k].owner != caller {
            Err(Error::NotNFTOwner)
        } else if self.nfts[k].is_sold {
            Err(Error::NFTAlreadySold)
        } else if !self.collections.contains_key(collection_id) {
            Err(Error::CollectionNotFound)
        } else {
            Ok(())
        }
    }

    /// The state after an item is burned: gone from storage and from its
    /// collection's list.
    pub open spec fn after_burn(self, collection_id: CollectionId, item_id: ItemId) -> LedgerView {
        let col = self.collections[collection_id];
        LedgerView {
            nfts: self.nfts.remove((collection_id, item_id)),
            collections: self.collections.insert(
                collection_id,
                CollectionView { nfts: col.nfts.remove_value(item_id), ..col },
            ),
            ..self
        }
    }
}

/// The views of the blobs of a batch.
pub open spec fn metadata_views(list: Seq<Vec<u8>>) -> Seq<Seq<u8>> {
    list.map_values(|m: Vec<u8>| m@)
}

/// Minting into a collection that can take one more item keeps the state
/// well formed.
pub(crate) proof fn lemma_wf_after_mint(
    v: LedgerView,
    collection_id: CollectionId,
    caller: AccountId,
    metadata: Seq<u8>,
    price: Option<Balance>,
)
    requires
        v.wf(),
        v.mint_nft_result(collection_id, metadata) is Ok,
    ensures
        v.after_mint(collection_id, caller, metadata, price).wf(),
{
    let w = v.after_mint(collection_id, caller, metadata, price);
    let id = v.next_item(collection_id);
    assert(v.collection_wf(collection_id));
    assert forall|k: (CollectionId, ItemId)| #[trigger] w.nfts.contains_key(k)
        implies k.1 < w.next_item(k.0) && k.0 < w.next_collection_id
        && w.nfts[k].metadata.len() <= MAX_METADATA_LEN by {
        if k != (collection_id, id) {
            assert(v.nfts.contains_key(k));
        }
    }
    assert forall|c: CollectionId| #[trigger] w.collections.contains_key(c) implies w.collection_wf(c) by {
        assert(v.collection_wf(c));
        if c == collection_id {
            let old_ids = v.collections[c].nfts;
            let ids = w.collections[c].nfts;
            assert forall|j: int| 0 <= j < old_ids.len() implies old_ids[j] != id by {
                assert(v.nfts.contains_key((c, old_ids[j])));
            }
            assert forall|j: int| 0 <= j < ids.len() implies w.nfts.contains_key((c, #[trigger] ids[j])) by {
                if j < old_ids.len() {
                    assert(v.nfts.contains_key((c, old_ids[j])));
                }
            }
            assert forall|i: ItemId| #[trigger] w.nfts.contains_key((c, i)) implies ids.contains(i) by {
                if i == id {
                    assert(ids[old_ids.len() as int] == i);
                } else {
                    assert(v.nfts.contains_key((c, i)));
                    let j = choose|j: int| 0 <= j < old_ids.len() && old_ids[j] == i;
                    assert(ids[j] == i);
                }
            }
        } else {
            assert forall|i: ItemId| #[trigger] w.nfts.contains_key((c, i)) implies w.collections[c].nfts.contains(i) by {
                assert(v.nfts.contains_key((c, i)));
            }
        }
    }
}

/// Entries that each can be minted leave the first error of the batch where
/// it was.
pub(crate) proof fn lemma_batch_prefix_ok(
    v: LedgerView,
    collection_id: CollectionId,
    metadata_list: Seq<Seq<u8>>,
    k: int,
    i: int,
)
    requires
        0 <= k <= i <= metadata_list.len(),
        forall|j: int| k <= j < i ==> v.batch_entry_error(collection_id, metadata_list, j) is None,
    ensures
        v.batch_first_error(collection_id, metadata_list, k) == v.batch_first_error(collection_id, metadata_list, i),
    decreases i - k,
{
    if k < i {
        lemma_batch_prefix_ok(v, collection_id, metadata_list, k + 1, i);
    }
}

pub(crate) proof fn lemma_collection_views_insert(m: Map<CollectionId, Collection>, k: CollectionId, v: Collection)
    ensures
        collection_views(m.insert(k, v)) == collection_views(m).insert(k, v@),
{
    assert(collection_views(m.insert(k, v)) =~= collection_views(m).insert(k, v@));
}

pub(crate) proof fn lemma_collection_views_remove(m: Map<CollectionId, Collection>, k: CollectionId)
    ensures
        collection_views(m.remove(k)) == collection_views(m).remove(k),
{
    assert(collection_views(m.remove(k)) =~= collection_views(m).remove(k));
}

pub(crate) proof fn lemma_nft_views_insert(m: Map<(CollectionId, ItemId), NFT>, k: (CollectionId, ItemId), v: NFT)
    ensures
        nft_views(m.insert(k, v)) == nft_views(m).insert(k, v@),
{
    assert(nft_views(m.insert(k, v)) =~= nft_views(m).insert(k, v@));
}

pub(crate) proof fn lemma_nft_views_remove(m: Map<(CollectionId, ItemId), NFT>, k: (CollectionId, ItemId))
    ensures
        nft_views(m.remove(k)) == nft_views(m).remove(k),
{
    assert(nft_views(m.remove(k)) =~= nft_views(m).remove(k));
}

/// In a well-formed state the collection's next item id is not taken.
pub proof fn lemma_fresh_item_id(v: LedgerView, collection_id: CollectionId)
    requires
        v.wf(),
    ensures
        !v.nfts.contains_key((collection_id, v.next_item(collection_id))),
{
}

/// Handing an item to a new owner keeps the state well formed.
pub(crate) proof fn lemma_wf_after_transfer(v: LedgerView, collection_id: CollectionId, item_id: ItemId, to: AccountId)
    requires
        v.wf(),
        v.nfts.contains_key((collection_id, item_id)),
    ensures
        v.after_transfer(collection_id, item_id, to).wf(),
{
    let w = v.after_transfer(collection_id, item_id, to);
    assert forall|k: (CollectionId, ItemId)| #[trigger] w.nfts.contains_key(k)
        implies k.1 < w.next_item(k.0) && k.0 < w.next_collection_id
        && w.nfts[k].metadata.len() <= MAX_METADATA_LEN by {
        assert(v.nfts.contains_key(k));
    }
    assert forall|c: CollectionId| #[trigger] w.collections.contains_key(c) implies w.collection_wf(c) by {
        assert(v.collection_wf(c));
        assert forall|i: ItemId| #[trigger] w.nfts.contains_key((c, i)) implies w.collections[c].nfts.contains(i) by {
            assert(v.nfts.contains_key((c, i)));
        }
    }
}

/// In a list without duplicates, removing the value at `idx` is removing
/// that value.
pub(crate) proof fn lemma_remove_value_at(ids: Seq<ItemId>, idx: int)
    requires
        ids.no_duplicates(),
        0 <= idx < ids.len(),
    ensures
        ids.remove_value(ids[idx]) == ids.remove(idx),
{
    ids.index_of_first_ensures(ids[idx]);
}

/// Burning an item keeps the state well formed.
pub(crate) proof fn lemma_wf_after_burn(v: LedgerView, collection_id: CollectionId, item_id: ItemId)
    requires
        v.wf(),
        v.nfts.contains_key((collection_id, item_id)),
        v.collections.contains_key(collection_id),
    ensures
        v.after_burn(collection_id, item_id).wf(),
{
    let w = v.after_burn(collection_id, item_id);
    assert(v.collection_wf(collection_id));
    let old_ids = v.collections[collection_id].nfts;
    let idx = choose|j: int| 0 <= j < old_ids.len() && old_ids[j] == item_id;
    lemma_remove_value_at(old_ids, idx);
    let ids = old_ids.remove(idx);
    assert(w.collections[collection_id].nfts == ids);
    assert forall|k: (CollectionId, ItemId)| #[trigger] w.nfts.contains_key(k)
        implies k.1 < w.next_item(k.0) && k.0 < w.next_collection_id
        && w.nfts[k].metadata.len() <= MAX_METADATA_LEN by {
        assert(v.nfts.contains_key(k));
    }
    assert forall|c: CollectionId| #[trigger] w.collections.contains_key(c) implies w.collection_wf(c) by {
        assert(v.collection_wf(c));
        if c == collection_id {
            assert forall|j: int| 0 <= j < ids.len() implies w.nfts.contains_key((c, #[trigger] ids[j])) by {
                if j < idx {
                    assert(ids[j] == old_ids[j]);
                    assert(v.nfts.contains_key((c, old_ids[j])));
                } else {
                    assert(ids[j] == old_ids[j + 1]);
                    assert(v.nfts.contains_key((c, old_ids[j + 1])));
                }
            }
            assert forall|i: ItemId| #[trigger] w.nfts.contains_key((c, i)) implies ids.contains(i) by {
                assert(v.nfts.contains_key((c, i)));
                let j = choose|j: int| 0 <= j < old_ids.len() && old_ids[j] == i;
                if j < idx {
                    assert(ids[j] == i);
                } else {
                    assert(ids[j - 1] == i);
                }
            }
        } else {
            assert forall|i: ItemId| #[trigger] w.nfts.contains_key((c, i)) implies w.collections[c].nfts.contains(i) by {
                assert(v.nfts.contains_key((c, i)));
            }
        }
    }
}

/// A successful mint takes exactly the collection's counter value as the new
/// item id; no stored item of the collection has that id, and afterwards the
/// counter is past it, so it is never given again.
pub proof fn lemma_mint_takes_fresh_id(
    v: LedgerView,
    collection_id: CollectionId,
    caller: AccountId,
    metadata: Seq<u8>,
    price: Option<Balance>,
)
    requires
        v.wf(),
        v.mint_nft_result(collection_id, metadata) is Ok,
    ensures
        v.mint_nft_result(collection_id, metadata) == Ok::<ItemId, Error>(v.next_item(collection_id)),
        !v.nfts.contains_key((collection_id, v.next_item(collection_id))),
        v.after_mint(collection_id, caller, metadata, price).nfts.contains_key(
            (collection_id, v.next_item(collection_id)),
        ),
        v.next_item(collection_id) < v.after_mint(collection_id, caller, metadata, price).next_item(
            collection_id,
        ),
{
    lemma_fresh_item_id(v, collection_id);
}

/// A batch with an entry that cannot be minted is rejected as a whole.
pub proof fn lemma_batch_rejects_if_any_entry_fails(
    v: LedgerView,
    collection_id: CollectionId,
    metadata_list: Seq<Seq<u8>>,
    i: int,
    bad: int,
)
    requires
        0 <= i <= bad < metadata_list.len(),
        v.batch_entry_error(collection_id, metadata_list, bad) is Some,
    ensures
        v.batch_first_error(collection_id, metadata_list, i) is Some,
    decreases bad - i,
{
    if v.batch_entry_error(collection_id, metadata_list, i) is None {
        lemma_batch_rejects_if_any_entry_fails(v, collection_id, metadata_list, i + 1, bad);
    }
}

/// Metadata longer than the bound is rejected with `MetadataInvalid` by
/// every call that takes metadata, once the checks that come before it pass:
/// creating a collection as an artist, updating an unfrozen collection as
/// its creator, minting into an existing collection, and minting a batch
/// into an existing collection when the oversized blob is the first entry
/// that fails. A rejected call changes nothing (see each call's contract).
pub proof fn lemma_oversized_metadata_rejected(
    v: LedgerView,
    caller: AccountId,
    collection_id: CollectionId,
    metadata: Seq<u8>,
    metadata_list: Seq<Seq<u8>>,
    bad: int,
)
    requires
        metadata.len() > MAX_METADATA_LEN,
        0 <= bad < metadata_list.len(),
        metadata_list[bad].len() > MAX_METADATA_LEN,
    ensures
        v.is_artist(caller) ==> v.create_collection_result(caller, metadata) == Err::<CollectionId, Error>(
            Error::MetadataInvalid,
        ),
        v.collections.contains_key(collection_id) && !v.collections[collection_id].is_frozen
            && v.collections[collection_id].creator == caller ==> v.update_collection_result(
            caller,
            collection_id,
            metadata,
        ) == Err::<(), Error>(Error::MetadataInvalid),
        v.collections.contains_key(collection_id) ==> v.mint_nft_result(collection_id, metadata) == Err::<
            ItemId,
            Error,
        >(Error::MetadataInvalid),
        v.collections.contains_key(collection_id) ==> v.batch_mint_nft_result(collection_id, metadata_list) is Err,
        v.collections.contains_key(collection_id) && (forall|j: int|
            0 <= j < bad ==> v.batch_entry_error(collection_id, metadata_list, j) is None)
            ==> v.batch_mint_nft_result(collection_id, metadata_list) == Err::<(), Error>(
            Error::MetadataInvalid,
        ),
{
    lemma_batch_rejects_if_any_entry_fails(v, collection_id, metadata_list, 0, bad);
    if forall|j: int| 0 <= j < bad ==> v.batch_entry_error(collection_id, metadata_list, j) is None {
        lemma_batch_prefix_ok(v, collection_id, metadata_list, 0, bad);
    }
}

/// Once its creator has frozen a collection, updating its metadata is
/// rejected with `CollectionFrozen`, whoever asks and whatever the metadata,
/// so the metadata stays as it was.
pub proof fn lemma_frozen_collection_rejects_update(
    v: LedgerView,
    creator: AccountId,
    id: CollectionId,
    caller: AccountId,
    metadata: Seq<u8>,
)
    requires
        v.freeze_collection_result(creator, id) is Ok,
    ensures
        v.after_freeze_collection(id).update_collection_result(caller, id, metadata) == Err::<(), Error>(
            Error::CollectionFrozen,
        ),
        v.after_freeze_collection(id).collections[id].metadata == v.collections[id].metadata,
{
}

/// Replacing a collection's creator, metadata or frozen flag, within the
/// metadata bound, keeps the state well formed.
pub(crate) proof fn lemma_wf_same_ids(v: LedgerView, id: CollectionId, col: CollectionView)
    requires
        v.wf(),
        v.collections.contains_key(id),
        col.nfts == v.collections[id].nfts,
        col.metadata.len() <= MAX_METADATA_LEN,
    ensures
        (LedgerView { collections: v.collections.insert(id, col), ..v }).wf(),
{
    let w = LedgerView { collections: v.collections.insert(id, col), ..v };
    assert forall|c: CollectionId| #[trigger] w.collections.contains_key(c) implies w.collection_wf(c) by {
        assert(v.collection_wf(c));
    }
}

} // verus!
