use kitties::dna::{combine_kitties, random_value};
use kitties::{combine_dna, compaction, Error, Kitty, Module, OwnershipIndex, Trait};

const ALICE: u64 = 1;
const BOB: u64 = 2;
const SEED: [u8; 32] = [7u8; 32];

/// Resolves every source below 100 to itself, and nothing else.
struct SmallAccounts;

impl Trait for SmallAccounts {
    fn lookup(&self, source: u64) -> Option<u64> {
        if source < 100 {
            Some(source)
        } else {
            None
        }
    }
}

fn payload(seed: [u8; 32], sender: u64, index: Option<u32>) -> Vec<u8> {
    let mut v = seed.to_vec();
    v.extend_from_slice(&sender.to_le_bytes());
    match index {
        None => v.push(0),
        Some(i) => {
            v.push(1);
            v.extend_from_slice(&i.to_le_bytes());
        }
    }
    v
}

#[test]
fn combine_dna_literal_vector() {
    assert_eq!(combine_dna(0b1010_1010, 0b0101_0101, 0b1111_0000), 0b1010_0101);
}

#[test]
fn combine_dna_is_not_symmetric() {
    let ab = combine_dna(0b1010_1010, 0b0101_0101, 0b1111_0000);
    let ba = combine_dna(0b0101_0101, 0b1010_1010, 0b1111_0000);
    assert_eq!(ba, 0b0101_1010);
    assert_ne!(ab, ba);
    assert_eq!(combine_dna(0x3c, 0x3c, 0x5a), 0x3c);
}

#[test]
fn combine_dna_selector_extremes() {
    assert_eq!(combine_dna(0x12, 0x34, 0xff), 0x12);
    assert_eq!(combine_dna(0x12, 0x34, 0x00), 0x34);
}

#[test]
fn combine_kitties_mixes_every_byte() {
    let a = Kitty([0b1010_1010; 16]);
    let b = Kitty([0b0101_0101; 16]);
    let mut selector = [0b1111_0000u8; 16];
    selector[15] = 0xff;
    let child = combine_kitties(&a, &b, selector);
    for i in 0..15 {
        assert_eq!(child.0[i], 0b1010_0101);
    }
    assert_eq!(child.0[15], 0b1010_1010);
}

#[test]
fn random_value_hashes_the_encoded_input() {
    let expected = sp_io::hashing::blake2_128(&payload(SEED, ALICE, Some(3)));
    assert_eq!(random_value(SEED, ALICE, Some(3)), expected);
    let expected_none = sp_io::hashing::blake2_128(&payload(SEED, ALICE, None));
    assert_eq!(random_value(SEED, ALICE, None), expected_none);
    assert_ne!(random_value(SEED, ALICE, None), random_value(SEED, BOB, None));
    assert_ne!(random_value(SEED, ALICE, Some(0)), random_value(SEED, ALICE, Some(1)));
}

#[test]
fn compaction_boundaries() {
    assert_eq!(compaction(1, 0), (None, 0));
    assert_eq!(compaction(5, 0), (Some(4), 4));
    assert_eq!(compaction(5, 2), (Some(4), 4));
    assert_eq!(compaction(5, 4), (None, 4));
    assert_eq!(compaction(u32::MAX, u32::MAX - 1), (None, u32::MAX - 1));
}

#[test]
fn index_unknown_owner_is_empty() {
    let index = OwnershipIndex::new();
    assert_eq!(index.count_of(ALICE), 0);
    assert_eq!(index.owned_kitty(ALICE, 0), None);
}

#[test]
fn index_remove_middle_moves_last() {
    let mut index = OwnershipIndex::new();
    for id in [10u32, 11, 12] {
        index.append(ALICE, id);
    }
    assert_eq!(index.remove_at(ALICE, 0), 10);
    assert_eq!(index.count_of(ALICE), 2);
    assert_eq!(index.owned_kitty(ALICE, 0), Some(12));
    assert_eq!(index.owned_kitty(ALICE, 1), Some(11));
    assert_eq!(index.owned_kitty(ALICE, 2), None);
}

#[test]
fn index_remove_last_just_clears() {
    let mut index = OwnershipIndex::new();
    for id in [10u32, 11, 12] {
        index.append(ALICE, id);
    }
    assert_eq!(index.remove_at(ALICE, 2), 12);
    assert_eq!(index.count_of(ALICE), 2);
    assert_eq!(index.owned_kitty(ALICE, 0), Some(10));
    assert_eq!(index.owned_kitty(ALICE, 1), Some(11));
    assert_eq!(index.owned_kitty(ALICE, 2), None);
}

#[test]
fn index_remove_only_item() {
    let mut index = OwnershipIndex::new();
    index.append(ALICE, 42);
    assert_eq!(index.remove_at(ALICE, 0), 42);
    assert_eq!(index.count_of(ALICE), 0);
    assert_eq!(index.owned_kitty(ALICE, 0), None);
}

#[test]
fn index_remove_then_append_restores_count() {
    let mut index = OwnershipIndex::new();
    for id in [10u32, 11, 12] {
        index.append(ALICE, id);
    }
    let id = index.remove_at(ALICE, 1);
    index.append(ALICE, id);
    assert_eq!(index.count_of(ALICE), 3);
    assert_eq!(index.owned_kitty(ALICE, 0), Some(10));
    assert_eq!(index.owned_kitty(ALICE, 1), Some(12));
    assert_eq!(index.owned_kitty(ALICE, 2), Some(11));
}

#[test]
fn index_transfer_one_to_new_owner() {
    let mut index = OwnershipIndex::new();
    index.append(ALICE, 0);
    index.append(ALICE, 1);
    assert_eq!(index.transfer_one(ALICE, 0, BOB), 0);
    assert_eq!(index.count_of(ALICE), 1);
    assert_eq!(index.owned_kitty(ALICE, 0), Some(1));
    assert_eq!(index.count_of(BOB), 1);
    assert_eq!(index.owned_kitty(BOB, 0), Some(0));
}

#[test]
fn new_module_is_empty() {
    let m = Module::new();
    assert_eq!(m.kitties_count(), 0);
    assert_eq!(m.next_kitty_id(), Ok(0));
    assert_eq!(m.kitties(0), None);
    assert_eq!(m.owned_kitties_count(ALICE), 0);
}

#[test]
fn create_stores_entropy_genome() {
    let mut m = Module::new();
    assert_eq!(m.create(ALICE, SEED, Some(0)), Ok(()));
    assert_eq!(m.kitties_count(), 1);
    assert_eq!(m.next_kitty_id(), Ok(1));
    let dna = sp_io::hashing::blake2_128(&payload(SEED, ALICE, Some(0)));
    assert_eq!(m.kitties(0), Some(Kitty(dna)));
    assert_eq!(m.owned_kitties_count(ALICE), 1);
    assert_eq!(m.owned_kitties(ALICE, 0), Some(0));
}

#[test]
fn insert_kitty_appends_to_owner() {
    let mut m = Module::new();
    m.insert_kitty(BOB, 0, Kitty([9u8; 16]));
    m.insert_kitty(BOB, 1, Kitty([8u8; 16]));
    assert_eq!(m.kitties_count(), 2);
    assert_eq!(m.kitties(1), Some(Kitty([8u8; 16])));
    assert_eq!(m.owned_kitties_count(BOB), 2);
    assert_eq!(m.owned_kitties(BOB, 1), Some(1));
}

#[test]
fn transfer_moves_last_into_freed_slot() {
    let mut m = Module::new();
    m.create(ALICE, SEED, Some(0)).unwrap();
    m.create(ALICE, SEED, Some(1)).unwrap();
    assert_eq!(m.owned_kitties_count(ALICE), 2);
    assert_eq!(m.transfer(&SmallAccounts, ALICE, 0, BOB), Ok(()));
    assert_eq!(m.owned_kitties_count(ALICE), 1);
    assert_eq!(m.owned_kitties(ALICE, 0), Some(1));
    assert_eq!(m.owned_kitties(ALICE, 1), None);
    assert_eq!(m.owned_kitties_count(BOB), 1);
    assert_eq!(m.owned_kitties(BOB, 0), Some(0));
    assert_eq!(m.kitties_count(), 2);
}

#[test]
fn transfer_last_slot_to_existing_owner() {
    let mut m = Module::new();
    m.create(ALICE, SEED, Some(0)).unwrap();
    m.create(ALICE, SEED, Some(1)).unwrap();
    m.create(BOB, SEED, Some(2)).unwrap();
    assert_eq!(m.transfer_to(ALICE, 1, Some(BOB)), Ok(()));
    assert_eq!(m.owned_kitties_count(ALICE), 1);
    assert_eq!(m.owned_kitties(ALICE, 0), Some(0));
    assert_eq!(m.owned_kitties_count(BOB), 2);
    assert_eq!(m.owned_kitties(BOB, 0), Some(2));
    assert_eq!(m.owned_kitties(BOB, 1), Some(1));
}

#[test]
fn transfer_to_self_keeps_count() {
    let mut m = Module::new();
    m.create(ALICE, SEED, Some(0)).unwrap();
    m.create(ALICE, SEED, Some(1)).unwrap();
    m.create(ALICE, SEED, Some(2)).unwrap();
    assert_eq!(m.transfer_to(ALICE, 0, Some(ALICE)), Ok(()));
    assert_eq!(m.owned_kitties_count(ALICE), 3);
    assert_eq!(m.owned_kitties(ALICE, 0), Some(2));
    assert_eq!(m.owned_kitties(ALICE, 1), Some(1));
    assert_eq!(m.owned_kitties(ALICE, 2), Some(0));
}

#[test]
fn transfer_one_past_end_is_not_owner() {
    let mut m = Module::new();
    m.create(ALICE, SEED, Some(0)).unwrap();
    m.create(ALICE, SEED, Some(1)).unwrap();
    let count = m.owned_kitties_count(ALICE);
    assert_eq!(m.transfer(&SmallAccounts, ALICE, count, BOB), Err(Error::NotOwner));
    assert_eq!(m.owned_kitties_count(ALICE), 2);
    assert_eq!(m.owned_kitties(ALICE, 0), Some(0));
    assert_eq!(m.owned_kitties(ALICE, 1), Some(1));
    assert_eq!(m.owned_kitties_count(BOB), 0);
}

#[test]
fn transfer_without_kitties_is_not_owner() {
    let mut m = Module::new();
    assert_eq!(m.transfer_to(ALICE, 0, Some(BOB)), Err(Error::NotOwner));
}

#[test]
fn transfer_to_unresolvable_recipient() {
    let mut m = Module::new();
    m.create(ALICE, SEED, Some(0)).unwrap();
    assert_eq!(m.transfer(&SmallAccounts, ALICE, 0, 1000), Err(Error::UnresolvableRecipient));
    assert_eq!(m.transfer_to(ALICE, 0, None), Err(Error::UnresolvableRecipient));
    assert_eq!(m.owned_kitties_count(ALICE), 1);
    assert_eq!(m.owned_kitties(ALICE, 0), Some(0));
}

#[test]
fn breed_same_parent_is_refused() {
    let mut m = Module::new();
    m.create(ALICE, SEED, Some(0)).unwrap();
    assert_eq!(m.breed(ALICE, 0, 0, SEED, Some(1)), Err(Error::RequireDifferentParent));
    assert_eq!(m.kitties_count(), 1);
    assert_eq!(m.next_kitty_id(), Ok(1));
    assert_eq!(m.owned_kitties_count(ALICE), 1);
}

#[test]
fn breed_unknown_parent_is_invalid() {
    let mut m = Module::new();
    m.create(ALICE, SEED, Some(0)).unwrap();
    assert_eq!(m.breed(ALICE, 0, 1, SEED, Some(1)), Err(Error::InvalidEntityId));
    assert_eq!(m.breed(ALICE, 5, 0, SEED, Some(1)), Err(Error::InvalidEntityId));
    assert_eq!(m.kitties_count(), 1);
}

#[test]
fn do_breed_mixes_parents_under_selector() {
    let mut m = Module::new();
    m.insert_kitty(ALICE, 0, Kitty([0b1010_1010; 16]));
    m.insert_kitty(BOB, 1, Kitty([0b0101_0101; 16]));
    assert_eq!(m.do_breed(BOB, 0, 1, [0b1111_0000; 16]), Ok(()));
    assert_eq!(m.kitties_count(), 3);
    assert_eq!(m.kitties(2), Some(Kitty([0b1010_0101; 16])));
    assert_eq!(m.owned_kitties_count(BOB), 2);
    assert_eq!(m.owned_kitties(BOB, 1), Some(2));
    assert_eq!(m.kitties(0), Some(Kitty([0b1010_1010; 16])));
}

#[test]
fn breed_uses_drawn_selector() {
    let mut m = Module::new();
    m.insert_kitty(ALICE, 0, Kitty([0x0f; 16]));
    m.insert_kitty(ALICE, 1, Kitty([0xf0; 16]));
    assert_eq!(m.breed(ALICE, 1, 0, SEED, Some(5)), Ok(()));
    let selector = sp_io::hashing::blake2_128(&payload(SEED, ALICE, Some(5)));
    let mut expected = [0u8; 16];
    for i in 0..16 {
        expected[i] = (selector[i] & 0xf0) | (!selector[i] & 0x0f);
    }
    assert_eq!(m.kitties(2), Some(Kitty(expected)));
    assert_eq!(m.owned_kitties_count(ALICE), 3);
}
