use blake2::Digest;
use kitties::registry::{Kitties, KittyError};
use kitties::Kitty;

const MINT_TAG: u8 = 0;
const BREED_TAG: u8 = 1;

/// The value the registry derives from a seed, a caller and a tag:
/// BLAKE2b-128 of seed, then the caller's little-endian bytes, then the tag.
fn derived_value(caller: u64, seed: &[u8; 16], tag: u8) -> [u8; 16] {
    let mut buf = Vec::new();
    buf.extend_from_slice(seed);
    buf.extend_from_slice(&caller.to_le_bytes());
    buf.push(tag);
    blake2::Blake2b128::digest(&buf).into()
}

fn combine_ref(a: u8, b: u8, s: u8) -> u8 {
    (a & s) | (b & !s)
}

fn sorted(mut v: Vec<u16>) -> Vec<u16> {
    v.sort();
    v
}

const ALICE: u64 = 11;
const BOB: u64 = 22;
const CHARLIE: u64 = 33;

fn seed(x: u8) -> [u8; 16] {
    let mut s = [0u8; 16];
    s[0] = x;
    s[15] = x.wrapping_mul(101);
    s
}

#[test]
fn new_registry_is_empty() {
    let reg = Kitties::new();
    assert_eq!(reg.kitties_count(), 0);
    assert!(reg.kitty(0).is_none());
    assert_eq!(reg.owned_kitties_count(ALICE), 0);
    assert!(reg.owned_list(ALICE).is_empty());
}

#[test]
fn insert_kitty_records_creature_and_ownership() {
    let mut reg = Kitties::new();
    reg.insert_kitty(ALICE, 0, Kitty([7u8; 16]));
    assert_eq!(reg.kitties_count(), 1);
    assert_eq!(reg.kitty(0).unwrap().0, [7u8; 16]);
    assert_eq!(reg.owned_list(ALICE), vec![0]);
    assert_eq!(reg.owned_kitties_count(ALICE), 1);
}

#[test]
fn mint_stores_derived_genome() {
    let mut reg = Kitties::new();
    let s = seed(3);
    let id = reg.mint(ALICE, &s).unwrap();
    assert_eq!(id, 0);
    let got = reg.kitty(id).unwrap().0;
    assert_eq!(got, derived_value(ALICE, &s, MINT_TAG));
}

#[test]
fn mint_assigns_fresh_increasing_ids() {
    let mut reg = Kitties::new();
    let a = reg.mint(ALICE, &seed(1)).unwrap();
    let b = reg.mint(BOB, &seed(2)).unwrap();
    let c = reg.mint(ALICE, &seed(3)).unwrap();
    assert_eq!((a, b, c), (0, 1, 2));
    assert_eq!(reg.kitties_count(), 3);
    assert_eq!(sorted(reg.owned_list(ALICE)), vec![0, 2]);
    assert_eq!(reg.owned_list(BOB), vec![1]);
}

#[test]
fn breed_same_parent_fails_without_state_change() {
    let mut reg = Kitties::new();
    reg.mint(ALICE, &seed(1)).unwrap();
    let before = reg.owned_list(ALICE);
    assert_eq!(reg.breed(ALICE, &seed(9), 0, 0), Err(KittyError::SameParent));
    assert_eq!(reg.kitties_count(), 1);
    assert_eq!(reg.owned_list(ALICE), before);
}

#[test]
fn breed_unknown_parent_fails_without_state_change() {
    let mut reg = Kitties::new();
    reg.mint(ALICE, &seed(1)).unwrap();
    assert_eq!(reg.breed(ALICE, &seed(9), 0, 5), Err(KittyError::UnknownEntity));
    assert_eq!(reg.breed(ALICE, &seed(9), 5, 0), Err(KittyError::UnknownEntity));
    assert_eq!(reg.breed(ALICE, &seed(9), 7, 7), Err(KittyError::UnknownEntity));
    assert_eq!(reg.kitties_count(), 1);
    assert_eq!(reg.owned_list(ALICE), vec![0]);
}

#[test]
fn breed_combines_parent_genomes_under_selector() {
    let mut reg = Kitties::new();
    let id1 = reg.mint(ALICE, &seed(1)).unwrap();
    let id2 = reg.mint(BOB, &seed(2)).unwrap();
    let dna1 = reg.kitty(id1).unwrap().0;
    let dna2 = reg.kitty(id2).unwrap().0;
    let breed_seed = seed(42);
    let child = reg.breed(CHARLIE, &breed_seed, id1, id2).unwrap();
    assert_eq!(child, 2);
    let selector = derived_value(CHARLIE, &breed_seed, BREED_TAG);
    let got = reg.kitty(child).unwrap().0;
    for i in 0..16 {
        assert_eq!(got[i], combine_ref(dna1[i], dna2[i], selector[i]), "byte {}", i);
    }
    // The offspring belongs to the caller, not to the parents' owners.
    assert_eq!(reg.owned_list(CHARLIE), vec![child]);
    assert_eq!(reg.owned_list(ALICE), vec![id1]);
    assert_eq!(reg.owned_list(BOB), vec![id2]);
    // Parents keep their genomes.
    assert_eq!(reg.kitty(id1).unwrap().0, dna1);
    assert_eq!(reg.kitty(id2).unwrap().0, dna2);
}

#[test]
fn transfer_moves_id_between_lists() {
    let mut reg = Kitties::new();
    for i in 0..3 {
        reg.mint(ALICE, &seed(i)).unwrap();
    }
    reg.mint(BOB, &seed(7)).unwrap();
    assert_eq!(reg.transfer(ALICE, BOB, 1), Ok(()));
    let alice = reg.owned_list(ALICE);
    let bob = reg.owned_list(BOB);
    assert!(bob.contains(&1));
    assert!(!alice.contains(&1));
    assert_eq!(alice.len(), 2);
    assert_eq!(bob.len(), 2);
    // Everything else Alice held is still hers.
    assert_eq!(sorted(alice), vec![0, 2]);
    assert_eq!(sorted(bob), vec![1, 3]);
    // The creature itself is untouched.
    assert!(reg.kitty(1).is_some());
    assert_eq!(reg.kitties_count(), 4);
}

#[test]
fn transfer_of_last_slot_truncates_cleanly() {
    let mut reg = Kitties::new();
    for i in 0..3 {
        reg.mint(ALICE, &seed(i)).unwrap();
    }
    assert_eq!(reg.transfer(ALICE, BOB, 2), Ok(()));
    assert_eq!(reg.owned_list(ALICE), vec![0, 1]);
    assert_eq!(reg.owned_list(BOB), vec![2]);
}

#[test]
fn transfer_of_middle_slot_patches_back_reference() {
    let mut reg = Kitties::new();
    for i in 0..3 {
        reg.mint(ALICE, &seed(i)).unwrap();
    }
    // Removing id 0 swaps the last id (2) into slot 0.
    assert_eq!(reg.transfer(ALICE, BOB, 0), Ok(()));
    assert_eq!(reg.owned_list(ALICE), vec![2, 1]);
    // If the moved id's back-reference was patched, transferring it
    // next still leaves a consistent index.
    assert_eq!(reg.transfer(ALICE, BOB, 2), Ok(()));
    assert_eq!(reg.owned_list(ALICE), vec![1]);
    assert_eq!(sorted(reg.owned_list(BOB)), vec![0, 2]);
    assert_eq!(reg.transfer(ALICE, BOB, 1), Ok(()));
    assert!(reg.owned_list(ALICE).is_empty());
    assert_eq!(reg.owned_kitties_count(ALICE), 0);
    assert_eq!(sorted(reg.owned_list(BOB)), vec![0, 1, 2]);
}

#[test]
fn transfer_unknown_id_fails_without_state_change() {
    let mut reg = Kitties::new();
    reg.mint(ALICE, &seed(1)).unwrap();
    assert_eq!(reg.transfer(ALICE, BOB, 9), Err(KittyError::UnknownEntity));
    assert_eq!(reg.owned_list(ALICE), vec![0]);
    assert!(reg.owned_list(BOB).is_empty());
}

#[test]
fn transfer_to_current_owner_keeps_holdings() {
    let mut reg = Kitties::new();
    for i in 0..3 {
        reg.mint(ALICE, &seed(i)).unwrap();
    }
    assert_eq!(reg.transfer(ALICE, ALICE, 0), Ok(()));
    assert_eq!(sorted(reg.owned_list(ALICE)), vec![0, 1, 2]);
    assert_eq!(reg.owned_kitties_count(ALICE), 3);
}

#[test]
fn transfer_moves_from_current_owner_whoever_calls() {
    // The ownership check on the caller is deliberately left to the
    // host layer: the registry moves the creature from its actual owner.
    let mut reg = Kitties::new();
    reg.mint(ALICE, &seed(1)).unwrap();
    assert_eq!(reg.transfer(CHARLIE, BOB, 0), Ok(()));
    assert!(reg.owned_list(ALICE).is_empty());
    assert_eq!(reg.owned_list(BOB), vec![0]);
    assert!(reg.owned_list(CHARLIE).is_empty());
}

#[test]
fn minting_past_the_id_space_fails_cleanly() {
    let mut reg = Kitties::new();
    let s = seed(5);
    for _ in 0..u16::MAX {
        reg.mint(ALICE, &s).unwrap();
    }
    assert_eq!(reg.kitties_count(), u16::MAX);
    assert_eq!(reg.mint(ALICE, &s), Err(KittyError::Overflow));
    assert_eq!(reg.breed(ALICE, &s, 0, 1), Err(KittyError::Overflow));
    assert_eq!(reg.kitties_count(), u16::MAX);
    assert_eq!(reg.owned_kitties_count(ALICE), u16::MAX);
}
