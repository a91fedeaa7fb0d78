use vstd::prelude::*;

verus! {

/// Identifies an account: an artist, an owner, a buyer, the module itself.
pub type AccountId = u64;

/// A collection's identifier, drawn from the global collection counter.
pub type CollectionId = u32;

/// An item's identifier, drawn from its collection's counter.
pub type ItemId = u32;

/// An amount of currency.
pub type Balance = u128;

/// The largest metadata blob, in bytes, that an item or a collection holds.
pub const MAX_METADATA_LEN: usize = 256;

/// The largest number of item ids that a collection lists.
pub const MAX_ITEMS_PER_COLLECTION: usize = 256;

/// The registration fee is this many times the currency's minimum balance.
pub const REGISTRATION_FEE_MULTIPLIER: u128 = 100;

/// A non-fungible item.
#[derive(Clone, Debug, PartialEq, Eq)]
pub struct NFT {
    pub owner: AccountId,
    pub metadata: Vec<u8>,
    pub is_sold: bool,
    /// The price asked in a sale; `None` when the item is not for sale.
    pub price: Option<Balance>,
}

/// A collection of items made by one creator.
#[derive(Clone, Debug, PartialEq, Eq)]
pub struct Collection {
    pub creator: AccountId,
    pub metadata: Vec<u8>,
    /// A frozen collection's metadata can no longer change.
    pub is_frozen: bool,
    /// The ids of the items minted into the collection and not burned.
    pub nfts: Vec<ItemId>,
}

/// The mathematical value of an [`NFT`].
pub struct NftView {
    pub owner: AccountId,
    pub metadata: Seq<u8>,
    pub is_sold: bool,
    pub price: Option<Balance>,
}

/// The mathematical value of a [`Collection`].
pub struct CollectionView {
    pub creator: AccountId,
    pub metadata: Seq<u8>,
    pub is_frozen: bool,
    pub nfts: Seq<ItemId>,
}

impl View for NFT {
    type V = NftView;

    open spec fn view(&self) -> NftView {
        NftView {
            owner: self.owner,
            metadata: self.metadata@,
            is_sold: self.is_sold,
            price: self.price,
        }
    }
}

impl View for Collection {
    type V = CollectionView;

    open spec fn view(&self) -> CollectionView {
        CollectionView {
            creator: self.creator,
            metadata: self.metadata@,
            is_frozen: self.is_frozen,
            nfts: self.nfts@,
        }
    }
}

/// What a successful call emits.
#[derive(Clone, Debug, PartialEq, Eq)]
pub enum Event {
    ArtistRegistered(AccountId),
    CollectionCreated(CollectionId, AccountId),
    CollectionUpdated(CollectionId),
    CollectionFrozen(CollectionId),
    CollectionDeleted(CollectionId),
    NFTMinted(CollectionId, ItemId, AccountId),
    NFTBatchMinted(CollectionId, Vec<ItemId>, AccountId),
    /// Collection, item, previous owner, new owner.
    NFTTransferred(CollectionId, ItemId, AccountId, AccountId),
    NFTBurned(CollectionId, ItemId, AccountId),
}

/// Why a currency transfer was refused.
#[derive(Clone, Copy, Debug, PartialEq, Eq, Structural)]
pub enum CurrencyError {
    /// The sender holds less than the amount.
    InsufficientBalance,
    /// The transfer would leave the sender below the minimum balance.
    WouldDie,
    /// The receiver's balance would not fit in a [`Balance`].
    Overflow,
}

/// Why a call was rejected. A rejected call changes nothing.
#[derive(Clone, Copy, Debug, PartialEq, Eq, Structural)]
pub enum Error {
    NFTNotFound,
    NotNFTOwner,
    NotRegisteredArtist,
    CollectionNotFound,
    AlreadyRegistered,
    CollectionFrozen,
    NotCollectionOwner,
    NFTAlreadySold,
    MetadataInvalid,
    /// The collection already lists as many items as it may.
    CapacityExceeded,
    /// The counter that would give the new id has reached its largest value.
    IdsExhausted,
    /// A sale was asked of an item that has no price.
    NotForSale,
    /// The currency ledger refused a transfer.
    Currency(CurrencyError),
}

/// The metadata as stored, or `MetadataInvalid` when it is longer than
/// [`MAX_METADATA_LEN`].
pub(crate) fn bounded_metadata(metadata: Vec<u8>) -> (r: Result<Vec<u8>, Error>)
    ensures
        metadata@.len() <= MAX_METADATA_LEN ==> (r matches Ok(m) && m@ == metadata@),
        metadata@.len() > MAX_METADATA_LEN ==> r == Err::<Vec<u8>, Error>(Error::MetadataInvalid),
{
    if metadata.len() <= MAX_METADATA_LEN {
        Ok(metadata)
    } else {
        Err(Error::MetadataInvalid)
    }
}

} // verus!
