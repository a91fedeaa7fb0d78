use nft_ledger::{Balances, CurrencyError, Error, Event, Pallet};

const TREASURY: u64 = 0;
const ARTIST: u64 = 1;
const BUYER: u64 = 2;
const OTHER: u64 = 3;

/// A ledger with a minimum balance of 1, ARTIST registered (fee 100) and
/// collection 0 created by ARTIST.
fn setup() -> (Pallet, Balances) {
    let mut pallet = Pallet::new(TREASURY);
    let mut balances = Balances::new(1);
    balances.set_balance(ARTIST, 1_000);
    assert_eq!(pallet.register_artist(&mut balances, ARTIST), Ok(Event::ArtistRegistered(ARTIST)));
    assert_eq!(pallet.create_collection(ARTIST, vec![1, 2, 3]), Ok(Event::CollectionCreated(0, ARTIST)));
    (pallet, balances)
}

#[test]
fn register_artist_pays_fee_to_treasury() {
    let mut pallet = Pallet::new(TREASURY);
    let mut balances = Balances::new(2);
    balances.set_balance(ARTIST, 1_000);
    assert!(!pallet.artists(ARTIST));
    assert_eq!(pallet.register_artist(&mut balances, ARTIST), Ok(Event::ArtistRegistered(ARTIST)));
    assert!(pallet.artists(ARTIST));
    assert_eq!(balances.free_balance(ARTIST), 800);
    assert_eq!(balances.free_balance(TREASURY), 200);
}

#[test]
fn register_artist_twice_is_rejected() {
    let (mut pallet, mut balances) = setup();
    assert_eq!(pallet.register_artist(&mut balances, ARTIST), Err(Error::AlreadyRegistered));
    assert_eq!(balances.free_balance(ARTIST), 900);
    assert_eq!(balances.free_balance(TREASURY), 100);
}

#[test]
fn register_artist_without_funds_changes_nothing() {
    let mut pallet = Pallet::new(TREASURY);
    let mut balances = Balances::new(1);
    balances.set_balance(ARTIST, 50);
    assert_eq!(
        pallet.register_artist(&mut balances, ARTIST),
        Err(Error::Currency(CurrencyError::InsufficientBalance))
    );
    assert!(!pallet.artists(ARTIST));
    assert_eq!(balances.free_balance(ARTIST), 50);
    // Exactly the fee would leave the artist below the minimum balance.
    balances.set_balance(ARTIST, 100);
    assert_eq!(
        pallet.register_artist(&mut balances, ARTIST),
        Err(Error::Currency(CurrencyError::WouldDie))
    );
    assert!(!pallet.artists(ARTIST));
    assert_eq!(balances.free_balance(ARTIST), 100);
    assert_eq!(balances.free_balance(TREASURY), 0);
}

#[test]
fn create_collection_needs_registered_artist() {
    let mut pallet = Pallet::new(TREASURY);
    assert_eq!(pallet.create_collection(OTHER, vec![1]), Err(Error::NotRegisteredArtist));
    assert_eq!(pallet.next_collection_id(), 0);
    assert!(pallet.collections(0).is_none());
}

#[test]
fn create_collection_takes_consecutive_ids() {
    let (mut pallet, _) = setup();
    assert_eq!(pallet.create_collection(ARTIST, vec![]), Ok(Event::CollectionCreated(1, ARTIST)));
    assert_eq!(pallet.next_collection_id(), 2);
    let c = pallet.collections(0).unwrap();
    assert_eq!(c.creator, ARTIST);
    assert_eq!(c.metadata, vec![1, 2, 3]);
    assert!(!c.is_frozen);
    assert!(c.nfts.is_empty());
}

#[test]
fn update_collection_checks_in_order() {
    let (mut pallet, _) = setup();
    assert_eq!(pallet.update_collection(ARTIST, 7, vec![9]), Err(Error::CollectionNotFound));
    assert_eq!(pallet.update_collection(OTHER, 0, vec![9]), Err(Error::NotCollectionOwner));
    assert_eq!(pallet.update_collection(ARTIST, 0, vec![9]), Ok(Event::CollectionUpdated(0)));
    assert_eq!(pallet.collections(0).unwrap().metadata, vec![9]);
}

#[test]
fn freeze_then_update_is_rejected() {
    let (mut pallet, _) = setup();
    assert_eq!(pallet.freeze_collection(OTHER, 0), Err(Error::NotCollectionOwner));
    assert_eq!(pallet.freeze_collection(ARTIST, 0), Ok(Event::CollectionFrozen(0)));
    assert_eq!(pallet.update_collection(ARTIST, 0, vec![4, 5]), Err(Error::CollectionFrozen));
    let c = pallet.collections(0).unwrap();
    assert!(c.is_frozen);
    assert_eq!(c.metadata, vec![1, 2, 3]);
    // Freezing again succeeds.
    assert_eq!(pallet.freeze_collection(ARTIST, 0), Ok(Event::CollectionFrozen(0)));
    assert_eq!(pallet.freeze_collection(ARTIST, 5), Err(Error::CollectionNotFound));
}

#[test]
fn delete_collection_rules() {
    let (mut pallet, _) = setup();
    assert_eq!(pallet.create_collection(ARTIST, vec![]), Ok(Event::CollectionCreated(1, ARTIST)));
    assert_eq!(pallet.delete_collection(ARTIST, 9), Err(Error::CollectionNotFound));
    assert_eq!(pallet.delete_collection(OTHER, 0), Err(Error::NotCollectionOwner));
    assert_eq!(pallet.freeze_collection(ARTIST, 1), Ok(Event::CollectionFrozen(1)));
    assert_eq!(pallet.delete_collection(ARTIST, 1), Err(Error::CollectionFrozen));
    assert!(pallet.collections(1).is_some());
    assert_eq!(pallet.delete_collection(ARTIST, 0), Ok(Event::CollectionDeleted(0)));
    assert!(pallet.collections(0).is_none());
    // Ids are not reused.
    assert_eq!(pallet.create_collection(ARTIST, vec![]), Ok(Event::CollectionCreated(2, ARTIST)));
}

#[test]
fn mint_takes_counter_value_as_id() {
    let (mut pallet, _) = setup();
    assert_eq!(pallet.next_item_id(0), 0);
    assert_eq!(pallet.mint_nft(OTHER, 0, vec![7], None), Ok(Event::NFTMinted(0, 0, OTHER)));
    assert_eq!(pallet.mint_nft(OTHER, 0, vec![8], Some(5)), Ok(Event::NFTMinted(0, 1, OTHER)));
    assert_eq!(pallet.next_item_id(0), 2);
    let n = pallet.nfts(0, 1).unwrap();
    assert_eq!(n.owner, OTHER);
    assert_eq!(n.metadata, vec![8]);
    assert!(!n.is_sold);
    assert_eq!(n.price, Some(5));
    assert_eq!(pallet.collections(0).unwrap().nfts, vec![0, 1]);
    // Burned ids are not given again.
    assert_eq!(pallet.burn_nft(OTHER, 0, 1), Ok(Event::NFTBurned(0, 1, OTHER)));
    assert_eq!(pallet.mint_nft(OTHER, 0, vec![9], None), Ok(Event::NFTMinted(0, 2, OTHER)));
    assert_eq!(pallet.collections(0).unwrap().nfts, vec![0, 2]);
}

#[test]
fn mint_into_missing_collection_is_rejected() {
    let (mut pallet, _) = setup();
    assert_eq!(pallet.mint_nft(ARTIST, 3, vec![1], None), Err(Error::CollectionNotFound));
    assert_eq!(pallet.next_item_id(3), 0);
    assert!(pallet.nfts(3, 0).is_none());
}

#[test]
fn mint_257th_item_exceeds_capacity() {
    let (mut pallet, _) = setup();
    for i in 0..256u32 {
        assert_eq!(pallet.mint_nft(ARTIST, 0, vec![1], None), Ok(Event::NFTMinted(0, i, ARTIST)));
    }
    assert_eq!(pallet.mint_nft(ARTIST, 0, vec![1], None), Err(Error::CapacityExceeded));
    assert_eq!(pallet.collections(0).unwrap().nfts.len(), 256);
    assert_eq!(pallet.next_item_id(0), 256);
    assert!(pallet.nfts(0, 256).is_none());
}

#[test]
fn metadata_of_257_bytes_is_rejected_everywhere() {
    let (mut pallet, _) = setup();
    let long = vec![0u8; 257];
    assert_eq!(pallet.create_collection(ARTIST, long.clone()), Err(Error::MetadataInvalid));
    assert_eq!(pallet.next_collection_id(), 1);
    assert!(pallet.collections(1).is_none());
    assert_eq!(pallet.update_collection(ARTIST, 0, long.clone()), Err(Error::MetadataInvalid));
    assert_eq!(pallet.collections(0).unwrap().metadata, vec![1, 2, 3]);
    assert_eq!(pallet.mint_nft(ARTIST, 0, long.clone(), None), Err(Error::MetadataInvalid));
    assert_eq!(pallet.batch_mint_nft(ARTIST, 0, vec![long.clone()]), Err(Error::MetadataInvalid));
    assert_eq!(pallet.next_item_id(0), 0);
    assert!(pallet.nfts(0, 0).is_none());
    assert!(pallet.collections(0).unwrap().nfts.is_empty());
    // 256 bytes is within the bound.
    assert_eq!(pallet.mint_nft(ARTIST, 0, vec![0u8; 256], None), Ok(Event::NFTMinted(0, 0, ARTIST)));
}

#[test]
fn transfer_by_non_owner_is_rejected() {
    let (mut pallet, _) = setup();
    pallet.mint_nft(ARTIST, 0, vec![1], None).unwrap();
    assert_eq!(pallet.transfer_nft(OTHER, 0, 0, BUYER), Err(Error::NotNFTOwner));
    assert_eq!(pallet.nfts(0, 0).unwrap().owner, ARTIST);
    assert!(!pallet.nfts(0, 0).unwrap().is_sold);
    assert_eq!(pallet.transfer_nft(ARTIST, 0, 5, BUYER), Err(Error::NFTNotFound));
}

#[test]
fn transfer_moves_ownership_and_marks_sold() {
    let (mut pallet, _) = setup();
    pallet.mint_nft(ARTIST, 0, vec![1], None).unwrap();
    assert_eq!(pallet.transfer_nft(ARTIST, 0, 0, BUYER), Ok(Event::NFTTransferred(0, 0, ARTIST, BUYER)));
    let n = pallet.nfts(0, 0).unwrap();
    assert_eq!(n.owner, BUYER);
    assert!(n.is_sold);
    assert_eq!(n.metadata, vec![1]);
}

#[test]
fn burn_of_sold_item_is_rejected() {
    let (mut pallet, _) = setup();
    pallet.mint_nft(ARTIST, 0, vec![1], None).unwrap();
    pallet.transfer_nft(ARTIST, 0, 0, BUYER).unwrap();
    assert_eq!(pallet.burn_nft(BUYER, 0, 0), Err(Error::NFTAlreadySold));
    assert!(pallet.nfts(0, 0).is_some());
    assert_eq!(pallet.collections(0).unwrap().nfts, vec![0]);
}

#[test]
fn burn_checks_and_removes() {
    let (mut pallet, _) = setup();
    pallet.mint_nft(ARTIST, 0, vec![1], None).unwrap();
    pallet.mint_nft(ARTIST, 0, vec![2], None).unwrap();
    pallet.mint_nft(ARTIST, 0, vec![3], None).unwrap();
    assert_eq!(pallet.burn_nft(ARTIST, 0, 9), Err(Error::NFTNotFound));
    assert_eq!(pallet.burn_nft(OTHER, 0, 1), Err(Error::NotNFTOwner));
    assert_eq!(pallet.burn_nft(ARTIST, 0, 1), Ok(Event::NFTBurned(0, 1, ARTIST)));
    assert!(pallet.nfts(0, 1).is_none());
    assert_eq!(pallet.collections(0).unwrap().nfts, vec![0, 2]);
}

#[test]
fn deleted_collection_leaves_items_in_place() {
    let (mut pallet, _) = setup();
    pallet.mint_nft(ARTIST, 0, vec![1], None).unwrap();
    pallet.mint_nft(ARTIST, 0, vec![2], None).unwrap();
    assert_eq!(pallet.delete_collection(ARTIST, 0), Ok(Event::CollectionDeleted(0)));
    assert_eq!(pallet.nfts(0, 0).unwrap().owner, ARTIST);
    // An orphaned item cannot be burned, as its collection is gone.
    assert_eq!(pallet.burn_nft(ARTIST, 0, 0), Err(Error::CollectionNotFound));
    assert!(pallet.nfts(0, 0).is_some());
    // It can still change hands.
    assert_eq!(pallet.transfer_nft(ARTIST, 0, 1, OTHER), Ok(Event::NFTTransferred(0, 1, ARTIST, OTHER)));
    assert_eq!(pallet.nfts(0, 1).unwrap().owner, OTHER);
    assert_eq!(pallet.mint_nft(ARTIST, 0, vec![3], None), Err(Error::CollectionNotFound));
}

#[test]
fn purchase_moves_price_and_ownership() {
    let (mut pallet, mut balances) = setup();
    assert_eq!(pallet.mint_nft(ARTIST, 0, vec![1], Some(100)), Ok(Event::NFTMinted(0, 0, ARTIST)));
    balances.set_balance(BUYER, 500);
    let artist_before = balances.free_balance(ARTIST);
    assert_eq!(
        pallet.buy_nft(&mut balances, BUYER, 0, 0),
        Ok(Event::NFTTransferred(0, 0, ARTIST, BUYER))
    );
    assert_eq!(balances.free_balance(ARTIST), artist_before + 100);
    assert_eq!(balances.free_balance(BUYER), 400);
    let n = pallet.nfts(0, 0).unwrap();
    assert_eq!(n.owner, BUYER);
    assert!(n.is_sold);
    // A sold item cannot be bought again.
    balances.set_balance(OTHER, 500);
    assert_eq!(pallet.buy_nft(&mut balances, OTHER, 0, 0), Err(Error::NFTAlreadySold));
}

#[test]
fn purchase_without_funds_changes_nothing() {
    let (mut pallet, mut balances) = setup();
    pallet.mint_nft(ARTIST, 0, vec![1], Some(100)).unwrap();
    balances.set_balance(BUYER, 50);
    assert_eq!(
        pallet.buy_nft(&mut balances, BUYER, 0, 0),
        Err(Error::Currency(CurrencyError::InsufficientBalance))
    );
    assert_eq!(balances.free_balance(BUYER), 50);
    assert_eq!(balances.free_balance(ARTIST), 900);
    let n = pallet.nfts(0, 0).unwrap();
    assert_eq!(n.owner, ARTIST);
    assert!(!n.is_sold);
    // Paying the whole balance would take the buyer below the minimum.
    balances.set_balance(BUYER, 100);
    assert_eq!(
        pallet.buy_nft(&mut balances, BUYER, 0, 0),
        Err(Error::Currency(CurrencyError::WouldDie))
    );
    assert_eq!(pallet.nfts(0, 0).unwrap().owner, ARTIST);
}

#[test]
fn purchase_rejections() {
    let (mut pallet, mut balances) = setup();
    pallet.mint_nft(ARTIST, 0, vec![1], Some(10)).unwrap();
    pallet.mint_nft(ARTIST, 0, vec![2], None).unwrap();
    balances.set_balance(BUYER, 500);
    assert_eq!(pallet.buy_nft(&mut balances, BUYER, 0, 7), Err(Error::NFTNotFound));
    assert_eq!(pallet.buy_nft(&mut balances, ARTIST, 0, 0), Err(Error::NotNFTOwner));
    assert_eq!(pallet.buy_nft(&mut balances, BUYER, 0, 1), Err(Error::NotForSale));
    assert_eq!(balances.free_balance(BUYER), 500);
}

#[test]
fn batch_with_invalid_third_entry_mints_nothing() {
    let (mut pallet, _) = setup();
    let list = vec![vec![1], vec![2], vec![0u8; 257], vec![4], vec![5]];
    assert_eq!(pallet.batch_mint_nft(ARTIST, 0, list), Err(Error::MetadataInvalid));
    assert_eq!(pallet.next_item_id(0), 0);
    for i in 0..5u32 {
        assert!(pallet.nfts(0, i).is_none());
    }
    assert!(pallet.collections(0).unwrap().nfts.is_empty());
}

#[test]
fn batch_mints_in_order() {
    let (mut pallet, _) = setup();
    pallet.mint_nft(ARTIST, 0, vec![9], None).unwrap();
    let list = vec![vec![1], vec![2], vec![3]];
    assert_eq!(
        pallet.batch_mint_nft(OTHER, 0, list),
        Ok(Event::NFTBatchMinted(0, vec![1, 2, 3], OTHER))
    );
    assert_eq!(pallet.next_item_id(0), 4);
    assert_eq!(pallet.collections(0).unwrap().nfts, vec![0, 1, 2, 3]);
    assert_eq!(pallet.nfts(0, 3).unwrap().metadata, vec![3]);
    assert_eq!(pallet.nfts(0, 2).unwrap().owner, OTHER);
    assert_eq!(pallet.batch_mint_nft(OTHER, 0, vec![]), Ok(Event::NFTBatchMinted(0, vec![], OTHER)));
    assert_eq!(pallet.batch_mint_nft(OTHER, 4, vec![vec![1]]), Err(Error::CollectionNotFound));
}

#[test]
fn batch_over_capacity_mints_nothing() {
    let (mut pallet, _) = setup();
    for _ in 0..254 {
        pallet.mint_nft(ARTIST, 0, vec![1], None).unwrap();
    }
    let list = vec![vec![1], vec![2], vec![3]];
    assert_eq!(pallet.batch_mint_nft(ARTIST, 0, list), Err(Error::CapacityExceeded));
    assert_eq!(pallet.collections(0).unwrap().nfts.len(), 254);
    assert_eq!(pallet.next_item_id(0), 254);
    assert_eq!(
        pallet.batch_mint_nft(ARTIST, 0, vec![vec![1], vec![2]]),
        Ok(Event::NFTBatchMinted(0, vec![254, 255], ARTIST))
    );
}

#[test]
fn balance_transfer_rules() {
    let mut balances = Balances::new(10);
    assert_eq!(balances.minimum_balance(), 10);
    balances.set_balance(1, 100);
    assert_eq!(balances.transfer(1, 2, 95, false), Ok(()));
    assert_eq!(balances.free_balance(1), 5);
    assert_eq!(balances.free_balance(2), 95);
    assert_eq!(balances.transfer(1, 2, 6, false), Err(CurrencyError::InsufficientBalance));
    balances.set_balance(3, u128::MAX);
    assert_eq!(balances.transfer(2, 3, 1, false), Err(CurrencyError::Overflow));
    assert_eq!(balances.transfer(2, 2, 50, true), Ok(()));
    assert_eq!(balances.free_balance(2), 95);
    assert_eq!(balances.transfer(2, 1, 90, true), Err(CurrencyError::WouldDie));
    assert_eq!(balances.free_balance(2), 95);
}

#[test]
fn registration_fee_saturates() {
    let mut pallet = Pallet::new(TREASURY);
    let mut balances = Balances::new(u128::MAX / 10);
    balances.set_balance(ARTIST, u128::MAX);
    assert_eq!(
        pallet.register_artist(&mut balances, ARTIST),
        Err(Error::Currency(CurrencyError::WouldDie))
    );
    assert_eq!(pallet.account(), TREASURY);
}
