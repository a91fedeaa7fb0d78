//! A ledger of collections of non-fungible items, with a small fungible
//! balance ledger used for registration fees and priced sales.
//!
//! Every call is a transition of [`Pallet`]'s state: it either applies all of
//! its writes and returns the event it emits, or returns an error and leaves
//! the state exactly as it was.

mod balances;
mod model;
mod pallet;
mod types;

pub use balances::{spec_balance_of, Balances};
pub use model::{
    collection_views, lemma_batch_rejects_if_any_entry_fails, lemma_fresh_item_id,
    lemma_frozen_collection_rejects_update, lemma_mint_takes_fresh_id,
    lemma_oversized_metadata_rejected, metadata_views, nft_views, registration_fee, LedgerView,
};
pub use pallet::Pallet;
pub use types::{
    AccountId, Balance, Collection, CollectionId, CollectionView, CurrencyError, Error, Event,
    ItemId, NftView, MAX_ITEMS_PER_COLLECTION, MAX_METADATA_LEN, NFT, REGISTRATION_FEE_MULTIPLIER,
};
