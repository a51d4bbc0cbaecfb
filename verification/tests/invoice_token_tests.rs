use invoice_factoring::error::Error;
use invoice_factoring::identity::{Credentials, Identity};
use invoice_factoring::invoice_token::InvoiceToken;

const ADMIN: Identity = Identity(1);
const USER: Identity = Identity(2);
const OTHER: Identity = Identity(3);

fn token_with_supply(total_supply: i128) -> InvoiceToken {
    let mut token = InvoiceToken::new();
    token
        .initialize(
            &Credentials::of(ADMIN),
            ADMIN,
            String::from("INV-001"),
            vec![1, 2, 3, 4],
            total_supply,
        )
        .unwrap();
    token
}

fn sum_of_balances(token: &InvoiceToken) -> i128 {
    token.balances().iter().map(|holding| holding.1).sum()
}

#[test]
fn test_initialize() {
    let mut token = InvoiceToken::new();

    let admin = Identity(1);
    let invoice_id = String::from("INV-001");
    let metadata_hash: Vec<u8> = vec![1, 2, 3, 4];
    let total_supply = 1000;

    token
        .initialize(
            &Credentials::of(admin),
            admin,
            invoice_id.clone(),
            metadata_hash.clone(),
            total_supply,
        )
        .unwrap();

    assert_eq!(token.get_invoice_id(), invoice_id);
    assert_eq!(token.total_supply(), total_supply);
    assert_eq!(token.balance(admin), total_supply);
}

#[test]
fn test_transfer() {
    let mut token = InvoiceToken::new();

    let admin = Identity(1);
    let user = Identity(2);
    let invoice_id = String::from("INV-001");
    let metadata_hash: Vec<u8> = vec![1, 2, 3, 4];
    let total_supply = 1000;

    token
        .initialize(&Credentials::of(admin), admin, invoice_id, metadata_hash, total_supply)
        .unwrap();

    token.transfer(&Credentials::of(admin), admin, user, 500).unwrap();

    assert_eq!(token.balance(admin), 500);
    assert_eq!(token.balance(user), 500);
}

#[test]
fn token_before_setup_reads_as_empty() {
    let token = InvoiceToken::new();
    assert_eq!(token.admin(), None);
    assert_eq!(token.get_invoice_id(), "");
    assert_eq!(token.get_metadata_hash(), Vec::<u8>::new());
    assert_eq!(token.total_supply(), 0);
    assert_eq!(token.balance(ADMIN), 0);
    assert!(token.balances().is_empty());
}

#[test]
fn token_setup_stores_invoice_and_hash() {
    let token = token_with_supply(1000);
    assert_eq!(token.admin(), Some(ADMIN));
    assert_eq!(token.get_invoice_id(), "INV-001");
    assert_eq!(token.get_metadata_hash(), vec![1u8, 2, 3, 4]);
    assert_eq!(token.balances(), vec![(ADMIN, 1000)]);
}

#[test]
fn token_setup_needs_the_admin_credential() {
    let mut token = InvoiceToken::new();
    let outcome =
        token.initialize(&Credentials::of(USER), ADMIN, String::from("INV-001"), vec![9], 1000);
    assert_eq!(outcome, Err(Error::Unauthorized));
    assert_eq!(token.admin(), None);
    assert_eq!(token.total_supply(), 0);
}

#[test]
fn token_setup_happens_once() {
    let mut token = token_with_supply(1000);
    let outcome =
        token.initialize(&Credentials::of(USER), USER, String::from("INV-002"), vec![9], 5);
    assert_eq!(outcome, Err(Error::AlreadyInitialized));
    assert_eq!(token.admin(), Some(ADMIN));
    assert_eq!(token.get_invoice_id(), "INV-001");
    assert_eq!(token.total_supply(), 1000);
    assert_eq!(token.balance(USER), 0);
}

#[test]
fn token_setup_refuses_a_supply_that_is_not_positive() {
    for supply in [0, -1, i128::MIN] {
        let mut token = InvoiceToken::new();
        let outcome = token.initialize(
            &Credentials::of(ADMIN),
            ADMIN,
            String::from("INV-001"),
            vec![1],
            supply,
        );
        assert_eq!(outcome, Err(Error::InvalidArgument));
        assert_eq!(token.admin(), None);
    }
}

#[test]
fn token_setup_takes_the_largest_supply() {
    let token = token_with_supply(i128::MAX);
    assert_eq!(token.total_supply(), i128::MAX);
    assert_eq!(token.balance(ADMIN), i128::MAX);
}

#[test]
fn transfer_needs_the_sender_credential() {
    let mut token = token_with_supply(1000);
    assert_eq!(token.transfer(&Credentials::none(), ADMIN, USER, 10), Err(Error::Unauthorized));
    assert_eq!(token.transfer(&Credentials::of(USER), ADMIN, USER, 10), Err(Error::Unauthorized));
    assert_eq!(token.balance(ADMIN), 1000);
    assert_eq!(token.balance(USER), 0);
}

#[test]
fn transfer_refuses_an_amount_that_is_not_positive() {
    let mut token = token_with_supply(1000);
    assert_eq!(token.transfer(&Credentials::of(ADMIN), ADMIN, USER, 0), Err(Error::InvalidArgument));
    assert_eq!(
        token.transfer(&Credentials::of(ADMIN), ADMIN, USER, -5),
        Err(Error::InvalidArgument)
    );
    assert_eq!(token.balance(ADMIN), 1000);
    assert_eq!(token.balance(USER), 0);
}

#[test]
fn transfer_beyond_balance_leaves_both_balances() {
    let mut token = token_with_supply(1000);
    token.transfer(&Credentials::of(ADMIN), ADMIN, USER, 300).unwrap();
    assert_eq!(
        token.transfer(&Credentials::of(USER), USER, OTHER, 301),
        Err(Error::InsufficientBalance)
    );
    assert_eq!(token.balance(USER), 300);
    assert_eq!(token.balance(OTHER), 0);
    assert_eq!(token.balance(ADMIN), 700);
    assert_eq!(token.total_supply(), 1000);
}

#[test]
fn transfer_of_the_whole_balance_leaves_zero() {
    let mut token = token_with_supply(1000);
    token.transfer(&Credentials::of(ADMIN), ADMIN, USER, 1000).unwrap();
    assert_eq!(token.balance(ADMIN), 0);
    assert_eq!(token.balance(USER), 1000);
    assert_eq!(token.total_supply(), 1000);
}

#[test]
fn transfer_to_oneself_changes_nothing() {
    let mut token = token_with_supply(1000);
    token.transfer(&Credentials::of(ADMIN), ADMIN, ADMIN, 400).unwrap();
    assert_eq!(token.balance(ADMIN), 1000);
    assert_eq!(token.total_supply(), 1000);
    assert_eq!(sum_of_balances(&token), 1000);
}

#[test]
fn transfer_on_a_token_never_set_up_finds_no_balance() {
    let mut token = InvoiceToken::new();
    assert_eq!(
        token.transfer(&Credentials::of(USER), USER, OTHER, 1),
        Err(Error::InsufficientBalance)
    );
}

#[test]
fn mint_adds_to_supply_and_balance() {
    let mut token = token_with_supply(1000);
    token.mint(&Credentials::of(ADMIN), USER, 250).unwrap();
    assert_eq!(token.total_supply(), 1250);
    assert_eq!(token.balance(USER), 250);
    assert_eq!(token.balance(ADMIN), 1000);
    token.mint(&Credentials::of(ADMIN), ADMIN, 50).unwrap();
    assert_eq!(token.total_supply(), 1300);
    assert_eq!(token.balance(ADMIN), 1050);
}

#[test]
fn mint_needs_the_admin_credential() {
    let mut token = token_with_supply(1000);
    assert_eq!(token.mint(&Credentials::of(USER), USER, 250), Err(Error::Unauthorized));
    assert_eq!(token.mint(&Credentials::none(), ADMIN, 250), Err(Error::Unauthorized));
    assert_eq!(token.total_supply(), 1000);
    assert_eq!(token.balance(USER), 0);
}

#[test]
fn mint_on_a_token_never_set_up_is_not_found() {
    let mut token = InvoiceToken::new();
    assert_eq!(token.mint(&Credentials::of(ADMIN), USER, 250), Err(Error::NotFound));
    assert_eq!(token.mint(&Credentials::none(), USER, 0), Err(Error::NotFound));
    assert_eq!(token.total_supply(), 0);
}

#[test]
fn mint_refuses_an_amount_that_is_not_positive() {
    let mut token = token_with_supply(1000);
    assert_eq!(token.mint(&Credentials::of(ADMIN), USER, 0), Err(Error::InvalidArgument));
    assert_eq!(token.mint(&Credentials::of(ADMIN), USER, -1), Err(Error::InvalidArgument));
    assert_eq!(token.total_supply(), 1000);
}

#[test]
fn mint_beyond_128_bits_overflows() {
    let mut token = token_with_supply(i128::MAX - 5);
    assert_eq!(token.mint(&Credentials::of(ADMIN), USER, 6), Err(Error::Overflow));
    assert_eq!(token.total_supply(), i128::MAX - 5);
    assert_eq!(token.balance(USER), 0);
    token.mint(&Credentials::of(ADMIN), USER, 5).unwrap();
    assert_eq!(token.total_supply(), i128::MAX);
    assert_eq!(token.balance(USER), 5);
}

#[test]
fn burn_takes_from_supply_and_balance() {
    let mut token = token_with_supply(1000);
    token.transfer(&Credentials::of(ADMIN), ADMIN, USER, 400).unwrap();
    token.burn(&Credentials::of(USER), USER, 150).unwrap();
    assert_eq!(token.total_supply(), 850);
    assert_eq!(token.balance(USER), 250);
    assert_eq!(token.balance(ADMIN), 600);
}

#[test]
fn burn_may_take_the_supply_to_zero() {
    let mut token = token_with_supply(1000);
    token.burn(&Credentials::of(ADMIN), ADMIN, 1000).unwrap();
    assert_eq!(token.total_supply(), 0);
    assert_eq!(token.balance(ADMIN), 0);
    assert_eq!(token.admin(), Some(ADMIN));
}

#[test]
fn burn_refusals() {
    let mut token = token_with_supply(1000);
    assert_eq!(token.burn(&Credentials::of(USER), ADMIN, 10), Err(Error::Unauthorized));
    assert_eq!(token.burn(&Credentials::of(ADMIN), ADMIN, 0), Err(Error::InvalidArgument));
    assert_eq!(token.burn(&Credentials::of(ADMIN), ADMIN, -10), Err(Error::InvalidArgument));
    assert_eq!(token.burn(&Credentials::of(ADMIN), ADMIN, 1001), Err(Error::InsufficientBalance));
    assert_eq!(token.burn(&Credentials::of(USER), USER, 1), Err(Error::InsufficientBalance));
    assert_eq!(token.total_supply(), 1000);
    assert_eq!(token.balance(ADMIN), 1000);
}

#[test]
fn refusal_order_of_transfer() {
    let mut token = token_with_supply(1000);
    // no credential comes before a bad amount, a bad amount before the balance
    assert_eq!(token.transfer(&Credentials::none(), USER, OTHER, 0), Err(Error::Unauthorized));
    assert_eq!(token.transfer(&Credentials::of(USER), USER, OTHER, 0), Err(Error::InvalidArgument));
}

#[test]
fn supply_is_the_sum_of_balances_throughout() {
    let mut token = token_with_supply(1000);
    assert_eq!(sum_of_balances(&token), token.total_supply());
    token.transfer(&Credentials::of(ADMIN), ADMIN, USER, 123).unwrap();
    assert_eq!(sum_of_balances(&token), token.total_supply());
    token.mint(&Credentials::of(ADMIN), OTHER, 77).unwrap();
    assert_eq!(sum_of_balances(&token), token.total_supply());
    token.burn(&Credentials::of(USER), USER, 23).unwrap();
    assert_eq!(sum_of_balances(&token), token.total_supply());
    token.transfer(&Credentials::of(OTHER), OTHER, USER, 77).unwrap();
    assert_eq!(sum_of_balances(&token), token.total_supply());
    assert_eq!(token.total_supply(), 1054);
    assert_eq!(token.balance(ADMIN), 877);
    assert_eq!(token.balance(USER), 177);
    assert_eq!(token.balance(OTHER), 0);
}

#[test]
fn token_restore_gives_back_what_was_stored() {
    let mut token = token_with_supply(1000);
    token.transfer(&Credentials::of(ADMIN), ADMIN, USER, 500).unwrap();
    let restored = InvoiceToken::restore(
        token.admin(),
        token.get_invoice_id(),
        token.get_metadata_hash(),
        token.total_supply(),
        &token.balances(),
    );
    let mut restored = restored.expect("a stored token is restored");
    assert_eq!(restored.admin(), Some(ADMIN));
    assert_eq!(restored.get_invoice_id(), "INV-001");
    assert_eq!(restored.get_metadata_hash(), vec![1u8, 2, 3, 4]);
    assert_eq!(restored.total_supply(), 1000);
    assert_eq!(restored.balance(ADMIN), 500);
    assert_eq!(restored.balance(USER), 500);
    restored.transfer(&Credentials::of(USER), USER, OTHER, 200).unwrap();
    assert_eq!(restored.balance(OTHER), 200);
}

#[test]
fn token_restore_refuses_parts_that_do_not_add_up() {
    let id = || String::from("INV-001");
    let good = vec![(ADMIN, 600), (USER, 400)];
    assert!(InvoiceToken::restore(Some(ADMIN), id(), vec![1], 1000, &good).is_some());
    // the supply is not the sum
    assert!(InvoiceToken::restore(Some(ADMIN), id(), vec![1], 999, &good).is_none());
    // an owner twice
    let twice = vec![(ADMIN, 600), (ADMIN, 400)];
    assert!(InvoiceToken::restore(Some(ADMIN), id(), vec![1], 1000, &twice).is_none());
    // a negative balance
    let negative = vec![(ADMIN, 1100), (USER, -100)];
    assert!(InvoiceToken::restore(Some(ADMIN), id(), vec![1], 1000, &negative).is_none());
    // a sum beyond 128 bits
    let huge = vec![(ADMIN, i128::MAX), (USER, 1)];
    assert!(InvoiceToken::restore(Some(ADMIN), id(), vec![1], i128::MAX, &huge).is_none());
    // holders, an invoice or a digest without an administrator
    assert!(InvoiceToken::restore(None, String::new(), vec![], 1000, &good).is_none());
    assert!(InvoiceToken::restore(None, id(), vec![], 0, &vec![]).is_none());
    assert!(InvoiceToken::restore(None, String::new(), vec![1], 0, &vec![]).is_none());
    assert!(InvoiceToken::restore(None, String::new(), vec![], 0, &vec![]).is_some());
    // a supply of zero after burning is a token still
    assert!(InvoiceToken::restore(Some(ADMIN), id(), vec![1], 0, &vec![(ADMIN, 0)]).is_some());
}
