use invoice_factoring::identity::{Credentials, Identity};
use invoice_factoring::ledger::Ledger;

const A: Identity = Identity(1);
const B: Identity = Identity(2);
const C: Identity = Identity(3);

#[test]
fn empty_ledger_holds_nothing() {
    let ledger = Ledger::new();
    assert_eq!(ledger.total(), 0);
    assert_eq!(ledger.amount_of(A), 0);
    assert!(ledger.holdings().is_empty());
}

#[test]
fn ledger_of_holdings_reads_back() {
    let holdings = vec![(A, 5), (B, 0), (C, 37)];
    let ledger = Ledger::from_holdings(&holdings).expect("valid holdings make a ledger");
    assert_eq!(ledger.total(), 42);
    assert_eq!(ledger.amount_of(A), 5);
    assert_eq!(ledger.amount_of(B), 0);
    assert_eq!(ledger.amount_of(C), 37);
    assert_eq!(ledger.amount_of(Identity(4)), 0);
    assert_eq!(ledger.holdings(), holdings);
}

#[test]
fn ledger_refuses_holdings_that_are_not_valid() {
    assert!(Ledger::from_holdings(&vec![]).is_some());
    assert!(Ledger::from_holdings(&vec![(A, i128::MAX)]).is_some());
    assert!(Ledger::from_holdings(&vec![(A, i128::MAX - 1), (B, 1)]).is_some());
    // an owner twice
    assert!(Ledger::from_holdings(&vec![(A, 1), (B, 2), (A, 3)]).is_none());
    assert!(Ledger::from_holdings(&vec![(A, 0), (A, 0)]).is_none());
    // a negative amount
    assert!(Ledger::from_holdings(&vec![(A, 1), (B, -1)]).is_none());
    // a sum beyond 128 bits
    assert!(Ledger::from_holdings(&vec![(A, i128::MAX), (B, 1)]).is_none());
    assert!(Ledger::from_holdings(&vec![(A, i128::MAX), (B, 0), (C, i128::MAX)]).is_none());
}

#[test]
fn credentials_authorize_their_signers_only() {
    let none = Credentials::none();
    assert!(!none.authorizes(A));

    let one = Credentials::of(A);
    assert!(one.authorizes(A));
    assert!(!one.authorizes(B));

    let mut two = Credentials::of(A);
    two.grant(C);
    two.grant(A);
    assert!(two.authorizes(A));
    assert!(two.authorizes(C));
    assert!(!two.authorizes(B));
}

#[test]
fn identities_are_the_same_when_their_numbers_are() {
    assert_eq!(Identity(7), Identity(7));
    assert_ne!(Identity(7), Identity(8));
    assert_eq!(Identity(u64::MAX).0, u64::MAX);
}
