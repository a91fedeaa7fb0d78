use std::collections::BTreeMap;
use vstd::prelude::*;

use crate::balances::Balances;
use crate::model::{
    collection_views, lemma_collection_views_insert, lemma_collection_views_remove,
    lemma_fresh_item_id, lemma_nft_views_insert, lemma_nft_views_remove, lemma_remove_value_at,
    lemma_wf_after_burn, lemma_wf_after_mint, lemma_wf_after_transfer, lemma_wf_same_ids,
    lemma_batch_prefix_ok, metadata_views, nft_views, registration_fee, LedgerView,
};
use crate::types::{
    bounded_metadata, AccountId, Balance, Collection, CollectionId, CollectionView, Error, Event,
    ItemId, NftView,
    MAX_ITEMS_PER_COLLECTION, MAX_METADATA_LEN, NFT, REGISTRATION_FEE_MULTIPLIER,
};

verus! {

/// The ledger: artists, collections, items and the counters that give ids.
pub struct Pallet {
    artists: BTreeMap<AccountId, bool>,
    collections: BTreeMap<CollectionId, Collection>,
    nfts: BTreeMap<(CollectionId, ItemId), NFT>,
    next_item_id: BTreeMap<CollectionId, ItemId>,
    next_collection_id: CollectionId,
    account: AccountId,
}

impl View for Pallet {
    type V = LedgerView;

    closed spec fn view(&self) -> LedgerView {
        LedgerView {
            artists: self.artists@,
            collections: collection_views(self.collections@),
            nfts: nft_views(self.nfts@),
            next_item_id: self.next_item_id@,
            next_collection_id: self.next_collection_id,
            account: self.account,
        }
    }
}

impl Pallet {
    /// An empty ledger whose registration fees go to `account`.
    pub fn new(account: AccountId) -> (r: Self)
        ensures
            r@.artists == Map::<AccountId, bool>::empty(),
            r@.collections == Map::<CollectionId, CollectionView>::empty(),
            r@.nfts == Map::<(CollectionId, ItemId), NftView>::empty(),
            r@.next_item_id == Map::<CollectionId, ItemId>::empty(),
            r@.next_collection_id == 0,
            r@.account == account,
            r@.wf(),
    {
        let r = Pallet {
            artists: BTreeMap::new(),
            collections: BTreeMap::new(),
            nfts: BTreeMap::new(),
            next_item_id: BTreeMap::new(),
            next_collection_id: 0,
            account,
        };
        assert(r@.collections =~= Map::empty());
        assert(r@.nfts =~= Map::empty());
        r
    }

    /// Registers the caller as an artist, for a fee paid to the ledger's
    /// account with a transfer that keeps the caller alive.
    pub fn register_artist(&mut self, balances: &mut Balances, caller: AccountId) -> (r: Result<Event, Error>)
        requires
            old(self)@.wf(),
        ensures
            final(self)@.wf(),
            final(balances).spec_minimum_balance() == old(balances).spec_minimum_balance(),
            match old(self)@.register_artist_result(*old(balances), caller) {
                Ok(_) => {
                    &&& r == Ok::<Event, Error>(Event::ArtistRegistered(caller))
                    &&& final(self)@ == old(self)@.after_register_artist(caller)
                    &&& final(balances)@ == Balances::transferred(
                        old(balances)@,
                        caller,
                        old(self)@.account,
                        registration_fee(old(balances).spec_minimum_balance()),
                    )
                },
                Err(e) => {
                    &&& r == Err::<Event, Error>(e)
                    &&& final(self)@ == old(self)@
                    &&& final(balances)@ == old(balances)@
                },
            },
    {
        if self.artists.contains_key(&caller) {
            return Err(Error::AlreadyRegistered);
        }
        let minimum = balances.minimum_balance();
        let fee = match minimum.checked_mul(REGISTRATION_FEE_MULTIPLIER) {
            Some(f) => f,
            None => Balance::MAX,
        };
        match balances.transfer(caller, self.account, fee, true) {
            Err(e) => {
                return Err(Error::Currency(e));
            },
            Ok(()) => {},
        }
        let ghost pre = self@;
        self.artists.insert(caller, true);
        proof {
            assert(self@ == pre.after_register_artist(caller));
            assert(self@.nfts == pre.nfts && self@.collections == pre.collections);
        }
        Ok(Event::ArtistRegistered(caller))
    }

    /// Creates an empty, unfrozen collection owned by the caller, under the
    /// next collection id.
    pub fn create_collection(&mut self, caller: AccountId, metadata: Vec<u8>) -> (r: Result<Event, Error>)
        requires
            old(self)@.wf(),
        ensures
            final(self)@.wf(),
            match old(self)@.create_collection_result(caller, metadata@) {
                Ok(id) => {
                    &&& r == Ok::<Event, Error>(Event::CollectionCreated(id, caller))
                    &&& final(self)@ == old(self)@.after_create_collection(caller, metadata@)
                },
                Err(e) => r == Err::<Event, Error>(e) && final(self)@ == old(self)@,
            },
    {
        let registered = match self.artists.get(&caller) {
            Some(b) => *b,
            None => false,
        };
        if !registered {
            return Err(Error::NotRegisteredArtist);
        }
        let ghost meta = metadata@;
        let bounded = match bounded_metadata(metadata) {
            Ok(m) => m,
            Err(e) => {
                return Err(e);
            },
        };
        if self.next_collection_id == CollectionId::MAX {
            return Err(Error::IdsExhausted);
        }
        let id = self.next_collection_id;
        let ghost pre = self@;
        let col = Collection { creator: caller, metadata: bounded, is_frozen: false, nfts: Vec::new() };
        self.collections.insert(id, col);
        self.next_collection_id = id + 1;
        proof {
            let post = pre.after_create_collection(caller, meta);
            assert(self@.collections =~= post.collections);
            assert(self@ == post);
            assert forall|k: (CollectionId, ItemId)| #[trigger] post.nfts.contains_key(k)
                implies k.1 < post.next_item(k.0) && k.0 < post.next_collection_id
                && post.nfts[k].metadata.len() <= MAX_METADATA_LEN by {
                assert(pre.nfts.contains_key(k));
            }
            assert forall|c: CollectionId| #[trigger] post.collections.contains_key(c)
                implies post.collection_wf(c) by {
                if c != id {
                    assert(pre.collections.contains_key(c));
                    assert(pre.collection_wf(c));
                } else {
                    assert forall|i: ItemId| #[trigger] post.nfts.contains_key((c, i))
                        implies post.collections[c].nfts.contains(i) by {
                        assert(pre.nfts.contains_key((c, i)));
                    }
                }
            }
        }
        Ok(Event::CollectionCreated(id, caller))
    }

    /// Replaces the metadata of a collection that the caller created and
    /// that is not frozen.
    pub fn update_collection(&mut self, caller: AccountId, collection_id: CollectionId, metadata: Vec<u8>) -> (r:
        Result<Event, Error>)
        requires
            old(self)@.wf(),
        ensures
            final(self)@.wf(),
            match old(self)@.update_collection_result(caller, collection_id, metadata@) {
                Ok(_) => {
                    &&& r == Ok::<Event, Error>(Event::CollectionUpdated(collection_id))
                    &&& final(self)@ == old(self)@.after_update_collection(collection_id, metadata@)
                },
                Err(e) => r == Err::<Event, Error>(e) && final(self)@ == old(self)@,
            },
    {
        let ghost pre = self@;
        match self.collections.get(&collection_id) {
            None => {
                return Err(Error::CollectionNotFound);
            },
            Some(col) => {
                if col.is_frozen {
                    return Err(Error::CollectionFrozen);
                }
                if col.creator != caller {
                    return Err(Error::NotCollectionOwner);
                }
            },
        }
        let ghost meta = metadata@;
        let bounded = match bounded_metadata(metadata) {
            Ok(m) => m,
            Err(e) => {
                return Err(e);
            },
        };
        let ghost m0 = self.collections@;
        let col = self.collections.remove(&collection_id).unwrap();
        let updated = Collection {
            creator: col.creator,
            metadata: bounded,
            is_frozen: col.is_frozen,
            nfts: col.nfts,
        };
        self.collections.insert(collection_id, updated);
        proof {
            assert(m0.remove(collection_id).insert(collection_id, updated) =~= m0.insert(collection_id, updated));
            lemma_collection_views_insert(m0, collection_id, updated);
            assert(self@ == pre.after_update_collection(collection_id, meta));
            lemma_wf_same_ids(pre, collection_id, updated@);
        }
        Ok(Event::CollectionUpdated(collection_id))
    }

    /// Freezes a collection that the caller created; freezing a frozen
    /// collection again succeeds and changes nothing further.
    pub fn freeze_collection(&mut self, caller: AccountId, collection_id: CollectionId) -> (r: Result<Event, Error>)
        requires
            old(self)@.wf(),
        ensures
            final(self)@.wf(),
            match old(self)@.freeze_collection_result(caller, collection_id) {
                Ok(_) => {
                    &&& r == Ok::<Event, Error>(Event::CollectionFrozen(collection_id))
                    &&& final(self)@ == old(self)@.after_freeze_collection(collection_id)
                },
                Err(e) => r == Err::<Event, Error>(e) && final(self)@ == old(self)@,
            },
    {
        let ghost pre = self@;
        match self.collections.get(&collection_id) {
            None => {
                return Err(Error::CollectionNotFound);
            },
            Some(col) => {
                if col.creator != caller {
                    return Err(Error::NotCollectionOwner);
                }
            },
        }
        let ghost m0 = self.collections@;
        let col = self.collections.remove(&collection_id).unwrap();
        let frozen = Collection {
            creator: col.creator,
            metadata: col.metadata,
            is_frozen: true,
            nfts: col.nfts,
        };
        self.collections.insert(collection_id, frozen);
        proof {
            assert(m0.remove(collection_id).insert(collection_id, frozen) =~= m0.insert(collection_id, frozen));
            lemma_collection_views_insert(m0, collection_id, frozen);
            assert(self@ == pre.after_freeze_collection(collection_id));
            lemma_wf_same_ids(pre, collection_id, frozen@);
        }
        Ok(Event::CollectionFrozen(collection_id))
    }

    /// Removes a collection that the caller created and that is not frozen.
    /// The items minted into it stay where they are.
    pub fn delete_collection(&mut self, caller: AccountId, collection_id: CollectionId) -> (r: Result<Event, Error>)
        requires
            old(self)@.wf(),
        ensures
            final(self)@.wf(),
            match old(self)@.delete_collection_result(caller, collection_id) {
                Ok(_) => {
                    &&& r == Ok::<Event, Error>(Event::CollectionDeleted(collection_id))
                    &&& final(self)@ == old(self)@.after_delete_collection(collection_id)
                },
                Err(e) => r == Err::<Event, Error>(e) && final(self)@ == old(self)@,
            },
    {
        let ghost pre = self@;
        match self.collections.get(&collection_id) {
            None => {
                return Err(Error::CollectionNotFound);
            },
            Some(col) => {
                if col.creator != caller {
                    return Err(Error::NotCollectionOwner);
                }
                if col.is_frozen {
                    return Err(Error::CollectionFrozen);
                }
            },
        }
        let ghost m0 = self.collections@;
        self.collections.remove(&collection_id);
        proof {
            lemma_collection_views_remove(m0, collection_id);
            let post = pre.after_delete_collection(collection_id);
            assert(self@ == post);
            assert forall|c: CollectionId| #[trigger] post.collections.contains_key(c) implies post.collection_wf(c) by {
                assert(pre.collection_wf(c));
            }
        }
        Ok(Event::CollectionDeleted(collection_id))
    }

    /// Stores a new item under the collection's next item id and lists it in
    /// the collection; the caller has checked that the mint is allowed.
    fn insert_item(
        &mut self,
        caller: AccountId,
        collection_id: CollectionId,
        metadata: Vec<u8>,
        price: Option<Balance>,
    ) -> (id: ItemId)
        requires
            old(self)@.wf(),
            old(self)@.mint_nft_result(collection_id, metadata@) is Ok,
        ensures
            final(self)@.wf(),
            id == old(self)@.next_item(collection_id),
            final(self)@ == old(self)@.after_mint(collection_id, caller, metadata@, price),
    {
        let ghost pre = self@;
        let ghost meta = metadata@;
        let id = match self.next_item_id.get(&collection_id) {
            Some(n) => *n,
            None => 0,
        };
        let nft = NFT { owner: caller, metadata, is_sold: false, price };
        let ghost n0 = self.nfts@;
        self.nfts.insert((collection_id, id), nft);
        let ghost m0 = self.collections@;
        let col = self.collections.remove(&collection_id).unwrap();
        let mut ids = col.nfts;
        ids.push(id);
        let listed = Collection { creator: col.creator, metadata: col.metadata, is_frozen: col.is_frozen, nfts: ids };
        self.collections.insert(collection_id, listed);
        self.next_item_id.insert(collection_id, id + 1);
        proof {
            lemma_nft_views_insert(n0, (collection_id, id), nft);
            assert(m0.remove(collection_id).insert(collection_id, listed) =~= m0.insert(collection_id, listed));
            lemma_collection_views_insert(m0, collection_id, listed);
            assert(self@ == pre.after_mint(collection_id, caller, meta, price));
            lemma_wf_after_mint(pre, collection_id, caller, meta, price);
        }
        id
    }

    /// Mints one item owned by the caller into an existing collection, under
    /// the collection's next item id, at the given price.
    pub fn mint_nft(
        &mut self,
        caller: AccountId,
        collection_id: CollectionId,
        metadata: Vec<u8>,
        price: Option<Balance>,
    ) -> (r: Result<Event, Error>)
        requires
            old(self)@.wf(),
        ensures
            final(self)@.wf(),
            match old(self)@.mint_nft_result(collection_id, metadata@) {
                Ok(id) => {
                    &&& id == old(self)@.next_item(collection_id)
                    &&& !old(self)@.nfts.contains_key((collection_id, id))
                    &&& r == Ok::<Event, Error>(Event::NFTMinted(collection_id, id, caller))
                    &&& final(self)@ == old(self)@.after_mint(collection_id, caller, metadata@, price)
                },
                Err(e) => r == Err::<Event, Error>(e) && final(self)@ == old(self)@,
            },
    {
        let ghost pre = self@;
        let full = match self.collections.get(&collection_id) {
            None => {
                return Err(Error::CollectionNotFound);
            },
            Some(col) => col.nfts.len() >= MAX_ITEMS_PER_COLLECTION,
        };
        if metadata.len() > MAX_METADATA_LEN {
            return Err(Error::MetadataInvalid);
        }
        if full {
            return Err(Error::CapacityExceeded);
        }
        let next = match self.next_item_id.get(&collection_id) {
            Some(n) => *n,
            None => 0,
        };
        if next == ItemId::MAX {
            return Err(Error::IdsExhausted);
        }
        proof {
            lemma_fresh_item_id(pre, collection_id);
        }
        let id = self.insert_item(caller, collection_id, metadata, price);
        Ok(Event::NFTMinted(collection_id, id, caller))
    }

    /// Mints one item owned by the caller for each blob of the list, in
    /// order, all or none: the first entry that cannot be minted rejects the
    /// whole batch.
    pub fn batch_mint_nft(&mut self, caller: AccountId, collection_id: CollectionId, metadata_list: Vec<Vec<u8>>) -> (r:
        Result<Event, Error>)
        requires
            old(self)@.wf(),
        ensures
            final(self)@.wf(),
            match old(self)@.batch_mint_nft_result(collection_id, metadata_views(metadata_list@)) {
                Ok(_) => {
                    &&& r matches Ok(Event::NFTBatchMinted(c, ids, who)) && c == collection_id && who == caller
                        && ids@ == Seq::new(
                        metadata_list@.len(),
                        |j: int| (old(self)@.next_item(collection_id) + j) as ItemId,
                    )
                    &&& final(self)@ == old(self)@.after_batch_mint(
                        collection_id,
                        caller,
                        metadata_views(metadata_list@),
                        metadata_list@.len(),
                    )
                },
                Err(e) => r == Err::<Event, Error>(e) && final(self)@ == old(self)@,
            },
    {
        let ghost pre = self@;
        let ghost metas = metadata_views(metadata_list@);
        let listed = match self.collections.get(&collection_id) {
            None => {
                return Err(Error::CollectionNotFound);
            },
            Some(col) => col.nfts.len(),
        };
        let next = match self.next_item_id.get(&collection_id) {
            Some(n) => *n,
            None => 0,
        };
        proof {
            assert(pre.collection_wf(collection_id));
        }
        let n = metadata_list.len();
        let mut i: usize = 0;
        while i < n
            invariant
                0 <= i <= n,
                n == metadata_list@.len(),
                self@ == pre,
                pre.wf(),
                pre.collections.contains_key(collection_id),
                listed == pre.collections[collection_id].nfts.len(),
                listed <= MAX_ITEMS_PER_COLLECTION,
                next == pre.next_item(collection_id),
                metas == metadata_views(metadata_list@),
                forall|j: int| 0 <= j < i ==> pre.batch_entry_error(collection_id, metas, j) is None,
            decreases n - i,
        {
            proof {
                lemma_batch_prefix_ok(pre, collection_id, metas, 0, i as int);
            }
            if metadata_list[i].len() > MAX_METADATA_LEN {
                return Err(Error::MetadataInvalid);
            }
            if i >= MAX_ITEMS_PER_COLLECTION - listed {
                return Err(Error::CapacityExceeded);
            }
            if i as u32 >= ItemId::MAX - next {
                return Err(Error::IdsExhausted);
            }
            i = i + 1;
        }
        proof {
            lemma_batch_prefix_ok(pre, collection_id, metas, 0, n as int);
        }
        let mut ids: Vec<ItemId> = Vec::new();
        let mut rest = metadata_list;
        let mut k: usize = 0;
        while k < n
            invariant
                0 <= k <= n,
                n == metas.len(),
                rest@.len() == n - k,
                forall|j: int| 0 <= j < n - k ==> (#[trigger] rest@[j])@ == metas[k + j],
                forall|j: int| 0 <= j < n ==> pre.batch_entry_error(collection_id, metas, j) is None,
                self@.wf(),
                self@ == pre.after_batch_mint(collection_id, caller, metas, k as nat),
                self@.collections.contains_key(collection_id),
                self@.collections[collection_id].nfts.len() == listed + k,
                self@.next_item(collection_id) == next + k,
                pre.collections.contains_key(collection_id),
                listed == pre.collections[collection_id].nfts.len(),
                next == pre.next_item(collection_id),
                ids@ == Seq::new(k as nat, |j: int| (next + j) as ItemId),
            decreases n - k,
        {
            let ghost before = rest@;
            let metadata = rest.remove(0);
            proof {
                assert(metadata@ == metas[k as int]);
                assert(pre.batch_entry_error(collection_id, metas, k as int) is None);
            }
            let id = self.insert_item(caller, collection_id, metadata, None);
            ids.push(id);
            k = k + 1;
            proof {
                assert(ids@ =~= Seq::new(k as nat, |j: int| (next + j) as ItemId));
                assert forall|j: int| 0 <= j < n - k implies (#[trigger] rest@[j])@ == metas[k + j] by {
                    assert(rest@[j] == before[j + 1]);
                }
            }
        }
        Ok(Event::NFTBatchMinted(collection_id, ids, caller))
    }

    /// Gives an existing item to `to` and marks it sold.
    fn hand_over(&mut self, collection_id: CollectionId, item_id: ItemId, to: AccountId)
        requires
            old(self)@.wf(),
            old(self)@.nfts.contains_key((collection_id, item_id)),
        ensures
            final(self)@.wf(),
            final(self)@ == old(self)@.after_transfer(collection_id, item_id, to),
    {
        let ghost pre = self@;
        let ghost n0 = self.nfts@;
        let k = (collection_id, item_id);
        let nft = self.nfts.remove(&k).unwrap();
        let given = NFT { owner: to, metadata: nft.metadata, is_sold: true, price: nft.price };
        self.nfts.insert(k, given);
        proof {
            assert(n0.remove(k).insert(k, given) =~= n0.insert(k, given));
            lemma_nft_views_insert(n0, k, given);
            assert(self@ == pre.after_transfer(collection_id, item_id, to));
            lemma_wf_after_transfer(pre, collection_id, item_id, to);
        }
    }

    /// Gives an item that the caller owns to `to`, without payment; the item
    /// then counts as sold.
    pub fn transfer_nft(&mut self, caller: AccountId, collection_id: CollectionId, item_id: ItemId, to: AccountId) -> (r:
        Result<Event, Error>)
        requires
            old(self)@.wf(),
        ensures
            final(self)@.wf(),
            match old(self)@.transfer_nft_result(caller, collection_id, item_id) {
                Ok(_) => {
                    &&& r == Ok::<Event, Error>(Event::NFTTransferred(collection_id, item_id, caller, to))
                    &&& final(self)@ == old(self)@.after_transfer(collection_id, item_id, to)
                },
                Err(e) => r == Err::<Event, Error>(e) && final(self)@ == old(self)@,
            },
    {
        match self.nfts.get(&(collection_id, item_id)) {
            None => {
                return Err(Error::NFTNotFound);
            },
            Some(nft) => {
                if nft.owner != caller {
                    return Err(Error::NotNFTOwner);
                }
            },
        }
        self.hand_over(collection_id, item_id, to);
        Ok(Event::NFTTransferred(collection_id, item_id, caller, to))
    }

    /// Sells an unsold, priced item to `buyer`: the price moves from the
    /// buyer to the owner with a transfer that keeps the buyer alive, and only
    /// then does the item change hands.
    pub fn buy_nft(&mut self, balances: &mut Balances, buyer: AccountId, collection_id: CollectionId, item_id: ItemId) -> (r:
        Result<Event, Error>)
        requires
            old(self)@.wf(),
        ensures
            final(self)@.wf(),
            final(balances).spec_minimum_balance() == old(balances).spec_minimum_balance(),
            match old(self)@.buy_nft_result(*old(balances), buyer, collection_id, item_id) {
                Ok(_) => {
                    let nft = old(self)@.nfts[(collection_id, item_id)];
                    &&& r == Ok::<Event, Error>(Event::NFTTransferred(collection_id, item_id, nft.owner, buyer))
                    &&& final(self)@ == old(self)@.after_transfer(collection_id, item_id, buyer)
                    &&& final(balances)@ == Balances::transferred(old(balances)@, buyer, nft.owner, nft.price.unwrap())
                },
                Err(e) => {
                    &&& r == Err::<Event, Error>(e)
                    &&& final(self)@ == old(self)@
                    &&& final(balances)@ == old(balances)@
                },
            },
    {
        let (seller, price) = match self.nfts.get(&(collection_id, item_id)) {
            None => {
                return Err(Error::NFTNotFound);
            },
            Some(nft) => {
                if nft.is_sold {
                    return Err(Error::NFTAlreadySold);
                }
                if nft.owner == buyer {
                    return Err(Error::NotNFTOwner);
                }
                match nft.price {
                    None => {
                        return Err(Error::NotForSale);
                    },
                    Some(p) => (nft.owner, p),
                }
            },
        };
        match balances.transfer(buyer, seller, price, true) {
            Err(e) => {
                return Err(Error::Currency(e));
            },
            Ok(()) => {},
        }
        self.hand_over(collection_id, item_id, buyer);
        Ok(Event::NFTTransferred(collection_id, item_id, seller, buyer))
    }

    /// Destroys an unsold item that the caller owns and takes it off its
    /// collection's list.
    pub fn burn_nft(&mut self, caller: AccountId, collection_id: CollectionId, item_id: ItemId) -> (r: Result<Event, Error>)
        requires
            old(self)@.wf(),
        ensures
            final(self)@.wf(),
            match old(self)@.burn_nft_result(caller, collection_id, item_id) {
                Ok(_) => {
                    &&& r == Ok::<Event, Error>(Event::NFTBurned(collection_id, item_id, caller))
                    &&& final(self)@ == old(self)@.after_burn(collection_id, item_id)
                },
                Err(e) => r == Err::<Event, Error>(e) && final(self)@ == old(self)@,
            },
    {
        let ghost pre = self@;
        let k = (collection_id, item_id);
        match self.nfts.get(&k) {
            None => {
                return Err(Error::NFTNotFound);
            },
            Some(nft) => {
                if nft.owner != caller {
                    return Err(Error::NotNFTOwner);
                }
                if nft.is_sold {
                    return Err(Error::NFTAlreadySold);
                }
            },
        }
        if !self.collections.contains_key(&collection_id) {
            return Err(Error::CollectionNotFound);
        }
        proof {
            assert(pre.collection_wf(collection_id));
        }
        let ghost n0 = self.nfts@;
        self.nfts.remove(&k);
        let ghost m0 = self.collections@;
        let col = self.collections.remove(&collection_id).unwrap();
        let mut ids = col.nfts;
        let mut j: usize = 0;
        while j < ids.len() && ids[j] != item_id
            invariant
                0 <= j <= ids@.len(),
                ids@ == pre.collections[collection_id].nfts,
                ids@.contains(item_id),
                forall|t: int| 0 <= t < j ==> ids@[t] != item_id,
            decreases ids@.len() - j,
        {
            j = j + 1;
        }
        ids.remove(j);
        let kept = Collection { creator: col.creator, metadata: col.metadata, is_frozen: col.is_frozen, nfts: ids };
        self.collections.insert(collection_id, kept);
        proof {
            lemma_nft_views_remove(n0, k);
            assert(m0.remove(collection_id).insert(collection_id, kept) =~= m0.insert(collection_id, kept));
            lemma_collection_views_insert(m0, collection_id, kept);
            lemma_remove_value_at(pre.collections[collection_id].nfts, j as int);
            assert(self@ == pre.after_burn(collection_id, item_id));
            lemma_wf_after_burn(pre, collection_id, item_id);
        }
        Ok(Event::NFTBurned(collection_id, item_id, caller))
    }

    /// Whether `who` has registered as an artist.
    pub fn artists(&self, who: AccountId) -> (r: bool)
        ensures
            r == self@.is_artist(who),
    {
        match self.artists.get(&who) {
            Some(b) => *b,
            None => false,
        }
    }

    /// The collection stored under `collection_id`, if any.
    pub fn collections(&self, collection_id: CollectionId) -> (r: Option<&Collection>)
        ensures
            match r {
                Some(c) => self@.collections.contains_key(collection_id) && c@ == self@.collections[collection_id],
                None => !self@.collections.contains_key(collection_id),
            },
    {
        self.collections.get(&collection_id)
    }

    /// The item stored under `(collection_id, item_id)`, if any.
    pub fn nfts(&self, collection_id: CollectionId, item_id: ItemId) -> (r: Option<&NFT>)
        ensures
            match r {
                Some(n) => self@.nfts.contains_key((collection_id, item_id)) && n@ == self@.nfts[(collection_id, item_id)],
                None => !self@.nfts.contains_key((collection_id, item_id)),
            },
    {
        self.nfts.get(&(collection_id, item_id))
    }

    /// The id that the next item minted into `collection_id` gets.
    pub fn next_item_id(&self, collection_id: CollectionId) -> (r: ItemId)
        ensures
            r == self@.next_item(collection_id),
    {
        match self.next_item_id.get(&collection_id) {
            Some(n) => *n,
            None => 0,
        }
    }

    /// The id that the next collection created gets.
    pub fn next_collection_id(&self) -> (r: CollectionId)
        ensures
            r == self@.next_collection_id,
    {
        self.next_collection_id
    }

    /// The account that receives registration fees.
    pub fn account(&self) -> (r: AccountId)
        ensures
            r == self@.account,
    {
        self.account
    }
}

} // verus!
