use kitties::errors::Error;
use kitties::genome::combine_dna;
use kitties::genome::Kitty;
use kitties::genome::KittyGender;
use kitties::store::KittiesModule;

const ALICE: u64 = 1;
const BOB: u64 = 2;

fn genome(byte0: u8) -> [u8; 16] {
    let mut g = [0u8; 16];
    g[0] = byte0;
    g
}

#[test]
fn combine_dna_selects_bits() {
    assert_eq!(combine_dna(0b1010_1010, 0b0101_0101, 0b1111_0000), 0b0101_1010);
    assert_eq!(combine_dna(0xFF, 0x00, 0x00), 0xFF);
    assert_eq!(combine_dna(0xFF, 0x00, 0xFF), 0x00);
}

#[test]
fn gender_follows_parity_of_byte0() {
    assert_eq!(Kitty(genome(4)).gender(), KittyGender::Male);
    assert_eq!(Kitty(genome(5)).gender(), KittyGender::Female);
    assert_eq!(Kitty(genome(0)).gender(), KittyGender::Male);
    assert_eq!(Kitty(genome(255)).gender(), KittyGender::Female);
}

#[test]
fn create_allocates_sequential_ids() {
    let mut s = KittiesModule::new();
    assert_eq!(s.next_kitty_id(), 0);
    let r0 = s.create(ALICE, genome(4));
    assert_eq!(r0, Ok((0, Kitty(genome(4)))));
    assert_eq!(s.next_kitty_id(), 1);
    let r1 = s.create(ALICE, genome(7));
    assert_eq!(r1, Ok((1, Kitty(genome(7)))));
    assert_eq!(s.next_kitty_id(), 2);
    assert!(s.contains_kitty(ALICE, 0));
    assert!(s.contains_kitty(ALICE, 1));
}

#[test]
fn create_fails_id_overflow_without_mutating_counter() {
    let mut s = KittiesModule::new();
    s.set_next_kitty_id(u32::MAX);
    assert_eq!(s.create(ALICE, genome(0)), Err(Error::KittiesIdOverflow));
    assert_eq!(s.next_kitty_id(), u32::MAX);
    assert!(!s.contains_kitty(ALICE, u32::MAX));
}

#[test]
fn breed_fails_id_overflow_without_mutating_counter() {
    let mut s = KittiesModule::new();
    s.create(ALICE, genome(2)).unwrap();
    s.create(ALICE, genome(3)).unwrap();
    s.set_next_kitty_id(u32::MAX);
    assert_eq!(
        s.breed(ALICE, 0, 1, genome(0)),
        Err(Error::KittiesIdOverflow)
    );
    assert_eq!(s.next_kitty_id(), u32::MAX);
}

#[test]
fn breed_fails_same_gender_on_equal_parity() {
    let mut s = KittiesModule::new();
    s.create(ALICE, genome(4)).unwrap();
    s.create(ALICE, genome(6)).unwrap();
    s.create(ALICE, genome(5)).unwrap();
    s.create(ALICE, genome(9)).unwrap();
    assert_eq!(s.breed(ALICE, 0, 1, genome(0)), Err(Error::SameGender));
    assert_eq!(s.breed(ALICE, 2, 3, genome(0)), Err(Error::SameGender));
    assert_eq!(s.breed(ALICE, 0, 0, genome(0)), Err(Error::SameGender));
    assert_eq!(s.next_kitty_id(), 4);
}

#[test]
fn breed_fails_invalid_kitty_id() {
    let mut s = KittiesModule::new();
    s.create(ALICE, genome(4)).unwrap();
    s.create(BOB, genome(5)).unwrap();
    assert_eq!(s.breed(ALICE, 0, 7, genome(0)), Err(Error::InvalidKittyId));
    assert_eq!(s.breed(ALICE, 7, 0, genome(0)), Err(Error::InvalidKittyId));
    assert_eq!(s.breed(ALICE, 0, 1, genome(0)), Err(Error::InvalidKittyId));
}

#[test]
fn breed_combines_parent_genomes_under_selector() {
    let mut s = KittiesModule::new();
    s.create(ALICE, [0b1010_1010; 16]).unwrap();
    s.create(ALICE, [0b0101_0101; 16]).unwrap();
    let (id, child) = s.breed(ALICE, 0, 1, [0b1111_0000; 16]).unwrap();
    assert_eq!(id, 2);
    assert_eq!(child, Kitty([0b0101_1010; 16]));
    assert_eq!(s.next_kitty_id(), 3);
    assert_eq!(s.kitties(ALICE, 2), Some(Kitty([0b0101_1010; 16])));
}

#[test]
fn transfer_moves_kitty_between_owners() {
    let mut s = KittiesModule::new();
    s.create(ALICE, genome(4)).unwrap();
    assert_eq!(s.transfer(ALICE, BOB, 0), Ok(()));
    assert!(!s.contains_kitty(ALICE, 0));
    assert!(s.contains_kitty(BOB, 0));
    assert_eq!(s.kitties(BOB, 0), Some(Kitty(genome(4))));
    assert_eq!(s.transfer(ALICE, BOB, 0), Err(Error::InvalidKittyId));
}

#[test]
fn transfer_to_self_checks_existence_and_changes_nothing() {
    let mut s = KittiesModule::new();
    s.create(ALICE, genome(4)).unwrap();
    assert_eq!(s.transfer(ALICE, ALICE, 0), Ok(()));
    assert!(s.contains_kitty(ALICE, 0));
    assert_eq!(s.kitties(ALICE, 0), Some(Kitty(genome(4))));
    assert_eq!(s.next_kitty_id(), 1);
    assert_eq!(s.transfer(ALICE, ALICE, 9), Err(Error::InvalidKittyId));
}

#[test]
fn set_price_fails_not_for_sale_without_listing() {
    let mut s = KittiesModule::new();
    s.create(ALICE, genome(4)).unwrap();
    assert!(s.contains_kitty(ALICE, 0));
    assert_eq!(s.set_price(ALICE, 0, 100), Err(Error::NotForSale));
    assert_eq!(s.kitty_price(0), None);
}

#[test]
fn set_price_overwrites_and_returns_previous() {
    let mut s = KittiesModule::new();
    s.create(ALICE, genome(4)).unwrap();
    s.set_listing(0, 50);
    assert_eq!(s.set_price(BOB, 0, 70), Err(Error::InvalidKittyId));
    assert_eq!(s.kitty_price(0), Some(50));
    assert_eq!(s.set_price(ALICE, 0, 70), Ok(50));
    assert_eq!(s.kitty_price(0), Some(70));
}

#[test]
fn exchange_with_yourself_fails_before_any_read() {
    let mut s = KittiesModule::new();
    assert_eq!(
        s.exchange(ALICE, ALICE, 0),
        Err(Error::CannotExchangeWithYourself)
    );
    let mut t = KittiesModule::new();
    t.create(ALICE, genome(4)).unwrap();
    t.set_listing(0, 50);
    assert_eq!(
        t.exchange(ALICE, ALICE, 0),
        Err(Error::CannotExchangeWithYourself)
    );
    assert_eq!(t.kitty_price(0), Some(50));
}

#[test]
fn exchange_fails_not_for_sale_without_listing() {
    let mut s = KittiesModule::new();
    s.create(ALICE, genome(4)).unwrap();
    s.set_balance(BOB, 100);
    assert_eq!(s.exchange(ALICE, BOB, 0), Err(Error::NotForSale));
    assert!(s.contains_kitty(ALICE, 0));
    assert_eq!(s.balance(BOB), Some(100));
}

#[test]
fn exchange_without_receiver_balance_consumes_listing() {
    let mut s = KittiesModule::new();
    s.create(ALICE, genome(4)).unwrap();
    s.set_listing(0, 50);
    assert_eq!(s.exchange(ALICE, BOB, 0), Err(Error::NotForSale));
    assert_eq!(s.kitty_price(0), None);
    assert!(s.contains_kitty(ALICE, 0));
}

#[test]
fn exchange_insufficient_balance_consumes_listing() {
    let mut s = KittiesModule::new();
    s.create(ALICE, genome(4)).unwrap();
    s.set_listing(0, 100);
    s.set_balance(BOB, 100);
    assert_eq!(s.exchange(ALICE, BOB, 0), Err(Error::NotEnoughBalance));
    assert_eq!(s.kitty_price(0), None);
    assert!(s.contains_kitty(ALICE, 0));
    assert_eq!(s.balance(BOB), Some(100));
}

#[test]
fn exchange_moves_price_and_removes_kitty() {
    let mut s = KittiesModule::new();
    s.create(ALICE, genome(4)).unwrap();
    s.set_listing(0, 50);
    s.set_balance(ALICE, 60);
    s.set_balance(BOB, 100);
    assert_eq!(s.exchange(ALICE, BOB, 0), Ok(()));
    assert_eq!(s.balance(ALICE), Some(10));
    assert_eq!(s.balance(BOB), Some(150));
    assert_eq!(s.kitty_price(0), None);
    assert!(!s.contains_kitty(ALICE, 0));
    assert!(!s.contains_kitty(BOB, 0));
}

#[test]
fn exchange_without_sender_balance_debits_nothing() {
    let mut s = KittiesModule::new();
    s.create(ALICE, genome(4)).unwrap();
    s.set_listing(0, 50);
    s.set_balance(BOB, 100);
    assert_eq!(s.exchange(ALICE, BOB, 0), Ok(()));
    assert_eq!(s.balance(ALICE), None);
    assert_eq!(s.balance(BOB), Some(150));
    assert!(!s.contains_kitty(ALICE, 0));
}

#[test]
fn exchange_debit_underflow_fails_checked() {
    let mut s = KittiesModule::new();
    s.create(ALICE, genome(4)).unwrap();
    s.set_listing(0, 50);
    s.set_balance(ALICE, 10);
    s.set_balance(BOB, 100);
    assert_eq!(s.exchange(ALICE, BOB, 0), Err(Error::NotEnoughBalance));
    assert_eq!(s.kitty_price(0), None);
    assert_eq!(s.balance(ALICE), Some(10));
    assert_eq!(s.balance(BOB), Some(100));
    assert!(s.contains_kitty(ALICE, 0));
}

#[test]
fn exchange_credit_overflow_fails_checked() {
    let mut s = KittiesModule::new();
    s.create(ALICE, genome(4)).unwrap();
    s.set_listing(0, 50);
    s.set_balance(ALICE, 60);
    s.set_balance(BOB, u64::MAX);
    assert_eq!(s.exchange(ALICE, BOB, 0), Err(Error::NotEnoughBalance));
    assert_eq!(s.kitty_price(0), None);
    assert_eq!(s.balance(ALICE), Some(60));
    assert_eq!(s.balance(BOB), Some(u64::MAX));
    assert!(s.contains_kitty(ALICE, 0));
}

#[test]
fn end_to_end_create_breed_transfer_price() {
    let mut s = KittiesModule::new();
    let (id0, k0) = s.create(ALICE, [0b1010_1010; 16]).unwrap();
    let (id1, k1) = s.create(ALICE, [0b0101_0101; 16]).unwrap();
    assert_eq!(id0, 0);
    assert_eq!(id1, 1);
    assert_ne!(k0.gender(), k1.gender());
    let (id2, child) = s.breed(ALICE, id0, id1, [0b1111_0000; 16]).unwrap();
    assert_eq!(id2, 2);
    let mut expected = [0u8; 16];
    for i in 0..16 {
        expected[i] = combine_dna(k0.0[i], k1.0[i], 0b1111_0000);
    }
    assert_eq!(child.0, expected);
    assert_eq!(child.0, [0b0101_1010; 16]);
    assert_eq!(s.transfer(ALICE, BOB, id2), Ok(()));
    assert!(!s.contains_kitty(ALICE, id2));
    assert!(s.contains_kitty(BOB, id2));
    assert_eq!(s.set_price(BOB, id2, 100), Err(Error::NotForSale));
}
