//! The escrow of one factoring deal: it pools investor deposits against a
//! funding target and is then released once, or declared in default.
//!
//! [`EscrowState`] is the mathematical model, with one spec function per
//! operation that gives the next state or the refusal. [`Escrow`] is the
//! executable state; each of its operations is proved to take exactly the
//! step of the model.

use crate::error::Error;
use crate::identity::{Credentials, Identity};
use crate::ledger::{
    book_of, held, is_book, lemma_held_at_most_sum, lemma_sum_insert, sum_of, valid_holdings,
    Ledger,
};
use crate::table::lemma_table_entry;
use vstd::prelude::*;

verus! {

/// Where a deal stands.
#[derive(Clone, Copy, Debug, PartialEq, Eq, Structural)]
pub enum EscrowStatus {
    /// Collecting deposits; the target is not reached.
    Pending,
    /// The target is reached; deposits are still taken.
    Funded,
    /// The funds went to the recipient.
    Released,
    /// The administrator declared the deal in default.
    Default,
}

impl EscrowStatus {
    /// Deposits are taken in this status.
    pub open spec fn accepts_deposits(self) -> bool {
        self is Pending || self is Funded
    }

    /// Nothing but a default leads out of this status, or nothing at all.
    pub open spec fn is_terminal(self) -> bool {
        self is Released || self is Default
    }

    /// One step of the life cycle leads from `self` to `next`, or `next` is
    /// `self`: `Pending` to `Funded`, `Funded` to `Released`, and either of
    /// the first two to `Default`.
    pub open spec fn may_become(self, next: EscrowStatus) -> bool {
        ||| next == self
        ||| self is Pending && next is Funded
        ||| self is Funded && next is Released
        ||| self.accepts_deposits() && next is Default
    }
}

/// What is fixed when a deal is set up.
#[derive(Clone, Copy, Debug, PartialEq, Eq, Structural)]
pub struct EscrowTerms {
    /// Who may declare the default, and release without a credential.
    pub admin: Identity,
    /// The token contract of the invoice.
    pub invoice_token: Identity,
    /// The business that receives the funds.
    pub smb_address: Identity,
    /// The funding target.
    pub total_amount: i128,
    /// The discount in basis points.
    pub discount_rate: i128,
}

/// The largest discount rate: all of it, in basis points.
pub const MAX_DISCOUNT_RATE: i128 = 10000;

/// The mathematical state of an escrow.
pub struct EscrowState {
    /// The terms, once the escrow is initialized.
    pub terms: Option<EscrowTerms>,
    /// The running sum of all deposits taken.
    pub total_deposited: int,
    pub status: EscrowStatus,
    /// What each investor has deposited in all.
    pub deposits: Map<Identity, int>,
}

impl EscrowState {
    /// The state made of terms, a total, a status and a list of deposits.
    pub open spec fn of_parts(
        terms: Option<EscrowTerms>,
        total_deposited: i128,
        status: EscrowStatus,
        deposits: Seq<(Identity, i128)>,
    ) -> EscrowState {
        EscrowState {
            terms,
            total_deposited: total_deposited as int,
            status,
            deposits: book_of(deposits),
        }
    }

    /// The funding target; zero before the escrow is initialized.
    pub open spec fn target(self) -> int {
        match self.terms {
            Some(terms) => terms.total_amount as int,
            None => 0,
        }
    }

    /// What holds of every escrow: the total is the sum of the deposits,
    /// the terms are in range, and the status says whether the target is
    /// reached. An escrow that was never initialized is pending and empty.
    pub open spec fn inv(self) -> bool {
        &&& is_book(self.deposits)
        &&& self.total_deposited == sum_of(self.deposits)
        &&& 0 <= self.total_deposited <= i128::MAX
        &&& match self.terms {
            Some(terms) => {
                &&& terms.total_amount > 0
                &&& 0 <= terms.discount_rate <= MAX_DISCOUNT_RATE
                &&& self.status is Pending ==> self.total_deposited < terms.total_amount
                &&& self.status is Funded || self.status is Released ==> self.total_deposited
                    >= terms.total_amount
            },
            None => self.status is Pending && self.deposits == Map::<Identity, int>::empty(),
        }
    }

    /// Setting up the deal, in a call that carries the credentials of
    /// `signers`.
    pub open spec fn step_initialize(
        self,
        signers: Set<Identity>,
        terms: EscrowTerms,
    ) -> Result<EscrowState, Error> {
        if !signers.contains(terms.admin) {
            Err(Error::Unauthorized)
        } else if self.terms is Some {
            Err(Error::AlreadyInitialized)
        } else if terms.total_amount <= 0 {
            Err(Error::InvalidArgument)
        } else if terms.discount_rate < 0 || terms.discount_rate > MAX_DISCOUNT_RATE {
            Err(Error::InvalidArgument)
        } else {
            Ok(
                EscrowState {
                    terms: Some(terms),
                    total_deposited: 0,
                    status: EscrowStatus::Pending,
                    deposits: self.deposits,
                },
            )
        }
    }

    /// A deposit of `amount` by `investor`, in a call that carries the
    /// credentials of `signers`. Deposits beyond the target are taken.
    pub open spec fn step_deposit(
        self,
        signers: Set<Identity>,
        investor: Identity,
        amount: i128,
    ) -> Result<EscrowState, Error> {
        if !signers.contains(investor) {
            Err(Error::Unauthorized)
        } else if !self.status.accepts_deposits() {
            Err(Error::InvalidState)
        } else if amount <= 0 {
            Err(Error::InvalidArgument)
        } else if self.total_deposited + amount > i128::MAX {
            Err(Error::Overflow)
        } else {
            match self.terms {
                None => Err(Error::NotFound),
                Some(terms) => Ok(
                    EscrowState {
                        terms: self.terms,
                        total_deposited: self.total_deposited + amount,
                        status: if self.total_deposited + amount >= terms.total_amount {
                            EscrowStatus::Funded
                        } else {
                            self.status
                        },
                        deposits: self.deposits.insert(
                            investor,
                            held(self.deposits, investor) + amount,
                        ),
                    },
                ),
            }
        }
    }

    /// The release of a funded escrow by `verifier`, in a call that carries
    /// the credentials of `signers`. The administrator needs no credential.
    pub open spec fn step_release_payment(
        self,
        signers: Set<Identity>,
        verifier: Identity,
    ) -> Result<EscrowState, Error> {
        match self.terms {
            None => Err(Error::NotFound),
            Some(terms) => if verifier != terms.admin && !signers.contains(verifier) {
                Err(Error::Unauthorized)
            } else if !(self.status is Funded) {
                Err(Error::InvalidState)
            } else {
                Ok(EscrowState { status: EscrowStatus::Released, ..self })
            },
        }
    }

    /// The declaration of default by `admin`, from whatever status, in a
    /// call that carries the credentials of `signers`.
    pub open spec fn step_handle_default(
        self,
        signers: Set<Identity>,
        admin: Identity,
    ) -> Result<EscrowState, Error> {
        if !signers.contains(admin) {
            Err(Error::Unauthorized)
        } else {
            match self.terms {
                None => Err(Error::NotFound),
                Some(terms) => if admin != terms.admin {
                    Err(Error::Unauthorized)
                } else {
                    Ok(EscrowState { status: EscrowStatus::Default, ..self })
                },
            }
        }
    }

    /// The state that a call leaves: the next state, or `self` where the
    /// call was refused.
    pub open spec fn left_by(self, outcome: Result<EscrowState, Error>) -> EscrowState {
        match outcome {
            Ok(next) => next,
            Err(_) => self,
        }
    }
}

/// The executable escrow.
#[derive(Debug)]
pub struct Escrow {
    terms: Option<EscrowTerms>,
    status: EscrowStatus,
    deposits: Ledger,
}

impl View for Escrow {
    type V = EscrowState;

    closed spec fn view(&self) -> EscrowState {
        EscrowState {
            terms: self.terms,
            total_deposited: self.deposits.running_total(),
            status: self.status,
            deposits: self.deposits@,
        }
    }
}

impl Escrow {
    /// The book of deposits is well-formed.
    pub closed spec fn well_kept(&self) -> bool {
        self.deposits.wf()
    }

    /// Well-formedness: the invariant of the model holds of this escrow.
    pub open spec fn wf(&self) -> bool {
        self.well_kept() && self@.inv()
    }

    /// An escrow that is not initialized yet.
    pub fn new() -> (escrow: Escrow)
        ensures
            escrow.wf(),
            escrow@ == (EscrowState {
                terms: None,
                total_deposited: 0,
                status: EscrowStatus::Pending,
                deposits: Map::empty(),
            }),
    {
        Escrow { terms: None, status: EscrowStatus::Pending, deposits: Ledger::new() }
    }

    /// The escrow that was stored as these parts, or nothing where the parts
    /// are not those of an escrow: the deposits must be a valid list of
    /// holdings, and the state they make with the terms, the total and the
    /// status must meet the invariant.
    pub fn restore(
        terms: Option<EscrowTerms>,
        total_deposited: i128,
        status: EscrowStatus,
        deposits: &Vec<(Identity, i128)>,
    ) -> (restored: Option<Escrow>)
        ensures
            restored is Some <==> valid_holdings(deposits@) && EscrowState::of_parts(
                terms,
                total_deposited,
                status,
                deposits@,
            ).inv(),
            restored matches Some(escrow) ==> escrow.wf() && escrow@ == EscrowState::of_parts(
                terms,
                total_deposited,
                status,
                deposits@,
            ),
    {
        let ledger = match Ledger::from_holdings(deposits) {
            Some(ledger) => ledger,
            None => {
                return None;
            },
        };
        if ledger.total() != total_deposited {
            return None;
        }
        match terms {
            Some(terms) => {
                if terms.total_amount <= 0 || terms.discount_rate < 0 || terms.discount_rate
                    > MAX_DISCOUNT_RATE {
                    return None;
                }
                let reached = total_deposited >= terms.total_amount;
                match status {
                    EscrowStatus::Pending => {
                        if reached {
                            return None;
                        }
                    },
                    EscrowStatus::Funded | EscrowStatus::Released => {
                        if !reached {
                            return None;
                        }
                    },
                    EscrowStatus::Default => {},
                }
            },
            None => {
                match status {
                    EscrowStatus::Pending => {},
                    _ => {
                        return None;
                    },
                }
                if deposits.len() != 0 {
                    proof {
                        lemma_table_entry(deposits@, 0);
                        assert(book_of(deposits@).contains_key(deposits@[0].0));
                    }
                    return None;
                }
                assert(book_of(deposits@) =~= Map::<Identity, int>::empty());
            },
        }
        Some(Escrow { terms, status, deposits: ledger })
    }

    /// The terms, once the escrow is set up.
    pub fn terms(&self) -> (terms: Option<EscrowTerms>)
        ensures
            terms == self@.terms,
    {
        self.terms
    }

    /// What `investor` has deposited in all.
    pub fn deposit_of(&self, investor: Identity) -> (amount: i128)
        requires
            self.wf(),
        ensures
            amount == held(self@.deposits, investor),
    {
        self.deposits.amount_of(investor)
    }

    /// The deposits as a list of holdings, one for each investor.
    pub fn deposits(&self) -> (deposits: Vec<(Identity, i128)>)
        requires
            self.wf(),
        ensures
            valid_holdings(deposits@),
            book_of(deposits@) == self@.deposits,
    {
        self.deposits.holdings()
    }

    /// Sets up the deal, once. Refused without the credential of `admin`,
    /// on an escrow set up before, for a target that is not positive and for
    /// a discount rate outside 0 to 10000 basis points.
    pub fn initialize(
        &mut self,
        creds: &Credentials,
        admin: Identity,
        invoice_token: Identity,
        smb_address: Identity,
        total_amount: i128,
        discount_rate: i128,
    ) -> (outcome: Result<(), Error>)
        requires
            old(self).wf(),
        ensures
            final(self).wf(),
            match old(self)@.step_initialize(
                creds@,
                EscrowTerms { admin, invoice_token, smb_address, total_amount, discount_rate },
            ) {
                Ok(next) => outcome is Ok && final(self)@ == next,
                Err(reason) => outcome == Err::<(), Error>(reason) && final(self)@ == old(self)@,
            },
    {
        if !creds.authorizes(admin) {
            return Err(Error::Unauthorized);
        }
        if self.terms.is_some() {
            return Err(Error::AlreadyInitialized);
        }
        if total_amount <= 0 {
            return Err(Error::InvalidArgument);
        }
        if discount_rate < 0 || discount_rate > MAX_DISCOUNT_RATE {
            return Err(Error::InvalidArgument);
        }
        self.terms = Some(
            EscrowTerms { admin, invoice_token, smb_address, total_amount, discount_rate },
        );
        self.status = EscrowStatus::Pending;
        Ok(())
    }

    /// Takes a deposit of `amount` from `investor` and marks the escrow
    /// funded once the target is reached. Refused without the credential of
    /// `investor`, after release or default, for an amount that is not
    /// positive, where the total would not fit 128 bits, and on an escrow
    /// that was never set up. A refused deposit changes nothing.
    pub fn deposit(
        &mut self,
        creds: &Credentials,
        investor: Identity,
        amount: i128,
    ) -> (outcome: Result<(), Error>)
        requires
            old(self).wf(),
        ensures
            final(self).wf(),
            match old(self)@.step_deposit(creds@, investor, amount) {
                Ok(next) => outcome is Ok && final(self)@ == next,
                Err(reason) => outcome == Err::<(), Error>(reason) && final(self)@ == old(self)@,
            },
            amount <= 0 || !old(self)@.status.accepts_deposits() ==> {
                &&& outcome is Err
                &&& final(self)@ == old(self)@
            },
            final(self)@.total_deposited == sum_of(final(self)@.deposits),
            outcome is Ok ==> final(self)@.total_deposited == old(self)@.total_deposited + amount,
    {
        if !creds.authorizes(investor) {
            return Err(Error::Unauthorized);
        }
        match self.status {
            EscrowStatus::Pending | EscrowStatus::Funded => {},
            _ => {
                return Err(Error::InvalidState);
            },
        }
        if amount <= 0 {
            return Err(Error::InvalidArgument);
        }
        let new_total = match self.deposits.total().checked_add(amount) {
            Some(sum) => sum,
            None => {
                return Err(Error::Overflow);
            },
        };
        let total_amount = match self.terms {
            Some(terms) => terms.total_amount,
            None => {
                return Err(Error::NotFound);
            },
        };
        self.deposits.credit(investor, amount);
        if new_total >= total_amount {
            self.status = EscrowStatus::Funded;
        }
        Ok(())
    }

    /// The status; `Pending` before the escrow is set up.
    pub fn get_status(&self) -> (status: EscrowStatus)
        ensures
            status == self@.status,
    {
        self.status
    }

    /// The sum of all deposits taken.
    pub fn get_total_deposited(&self) -> (total: i128)
        ensures
            total == self@.total_deposited,
    {
        self.deposits.total()
    }

    /// Whether the deposits reach the target. The target of an escrow that
    /// was never set up counts as zero.
    pub fn is_fully_funded(&self) -> (funded: bool)
        ensures
            funded == (self@.total_deposited >= self@.target()),
    {
        let total_amount = match self.terms {
            Some(terms) => terms.total_amount,
            None => 0,
        };
        self.deposits.total() >= total_amount
    }

    /// Whether a release by `verifier` must carry the credential of
    /// `verifier`: it must for anyone but the administrator.
    pub fn release_needs_credential(&self, verifier: Identity) -> (needed: bool)
        ensures
            needed == (self@.terms matches Some(terms) && verifier != terms.admin),
            needed <==> self@.step_release_payment(Set::empty(), verifier) == Err::<
                EscrowState,
                Error,
            >(Error::Unauthorized),
    {
        match self.terms {
            Some(terms) => verifier != terms.admin,
            None => false,
        }
    }

    /// Releases a funded escrow. The administrator needs no credential;
    /// anyone else must carry their own. Refused on an escrow that was never
    /// set up, without the credential, and in any status but `Funded`.
    pub fn release_payment(
        &mut self,
        creds: &Credentials,
        verifier: Identity,
    ) -> (outcome: Result<(), Error>)
        requires
            old(self).wf(),
        ensures
            final(self).wf(),
            match old(self)@.step_release_payment(creds@, verifier) {
                Ok(next) => outcome is Ok && final(self)@ == next,
                Err(reason) => outcome == Err::<(), Error>(reason) && final(self)@ == old(self)@,
            },
    {
        let admin = match self.terms {
            Some(terms) => terms.admin,
            None => {
                return Err(Error::NotFound);
            },
        };
        if verifier != admin && !creds.authorizes(verifier) {
            return Err(Error::Unauthorized);
        }
        match self.status {
            EscrowStatus::Funded => {},
            _ => {
                return Err(Error::InvalidState);
            },
        }
        self.status = EscrowStatus::Released;
        Ok(())
    }

    /// Declares the deal in default, whatever its status. Refused without
    /// the credential of `admin`, on an escrow that was never set up, and
    /// where `admin` is not the administrator.
    pub fn handle_default(
        &mut self,
        creds: &Credentials,
        admin: Identity,
    ) -> (outcome: Result<(), Error>)
        requires
            old(self).wf(),
        ensures
            final(self).wf(),
            match old(self)@.step_handle_default(creds@, admin) {
                Ok(next) => outcome is Ok && final(self)@ == next,
                Err(reason) => outcome == Err::<(), Error>(reason) && final(self)@ == old(self)@,
            },
    {
        if !creds.authorizes(admin) {
            return Err(Error::Unauthorized);
        }
        let stored_admin = match self.terms {
            Some(terms) => terms.admin,
            None => {
                return Err(Error::NotFound);
            },
        };
        if admin != stored_admin {
            return Err(Error::Unauthorized);
        }
        self.status = EscrowStatus::Default;
        Ok(())
    }
}

/// Every operation, taken or refused, leaves an escrow that meets the
/// invariant.
pub proof fn law_invariant_is_kept(
    pre: EscrowState,
    signers: Set<Identity>,
    who: Identity,
    amount: i128,
    terms: EscrowTerms,
)
    requires
        pre.inv(),
    ensures
        pre.left_by(pre.step_initialize(signers, terms)).inv(),
        pre.left_by(pre.step_deposit(signers, who, amount)).inv(),
        pre.left_by(pre.step_release_payment(signers, who)).inv(),
        pre.left_by(pre.step_handle_default(signers, who)).inv(),
{
    lemma_sum_insert(pre.deposits, who, held(pre.deposits, who) + amount);
    lemma_held_at_most_sum(pre.deposits, who);
}

/// After every deposit that was taken, the total is the sum of all
/// deposits: it grew by the amount, and so did what the investor has
/// deposited, while no other investor's deposits changed.
pub proof fn law_deposit_total_is_sum(
    pre: EscrowState,
    signers: Set<Identity>,
    investor: Identity,
    amount: i128,
)
    requires
        pre.inv(),
        pre.step_deposit(signers, investor, amount) is Ok,
    ensures
        ({
            let next = pre.left_by(pre.step_deposit(signers, investor, amount));
            &&& next.total_deposited == sum_of(next.deposits)
            &&& next.total_deposited == pre.total_deposited + amount
            &&& held(next.deposits, investor) == held(pre.deposits, investor) + amount
            &&& forall|other: Identity|
                other != investor ==> held(next.deposits, other) == held(pre.deposits, other)
        }),
{
    lemma_sum_insert(pre.deposits, investor, held(pre.deposits, investor) + amount);
}

/// What is fixed and what only grows: once set, the terms never change; no
/// operation lowers the total or what an investor has deposited.
pub proof fn law_terms_are_fixed_and_deposits_grow(
    pre: EscrowState,
    signers: Set<Identity>,
    who: Identity,
    amount: i128,
    terms: EscrowTerms,
    investor: Identity,
)
    requires
        pre.inv(),
    ensures
        ({
            let set_up = pre.left_by(pre.step_initialize(signers, terms));
            let deposited = pre.left_by(pre.step_deposit(signers, who, amount));
            let released = pre.left_by(pre.step_release_payment(signers, who));
            let defaulted = pre.left_by(pre.step_handle_default(signers, who));
            &&& pre.terms is Some ==> set_up.terms == pre.terms && deposited.terms == pre.terms
                && released.terms == pre.terms && defaulted.terms == pre.terms
            &&& set_up.total_deposited == pre.total_deposited
            &&& deposited.total_deposited >= pre.total_deposited
            &&& released.total_deposited == pre.total_deposited
            &&& defaulted.total_deposited == pre.total_deposited
            &&& set_up.deposits == pre.deposits
            &&& held(deposited.deposits, investor) >= held(pre.deposits, investor)
            &&& released.deposits == pre.deposits
            &&& defaulted.deposits == pre.deposits
        }),
{
}

/// The status never goes backward: an operation leaves the status it found
/// or takes one step of the life cycle. The one exception is a default
/// declared after the release, which the escrow accepts.
pub proof fn law_status_never_regresses(
    pre: EscrowState,
    signers: Set<Identity>,
    who: Identity,
    amount: i128,
    terms: EscrowTerms,
)
    requires
        pre.inv(),
    ensures
        pre.status.may_become(pre.left_by(pre.step_initialize(signers, terms)).status),
        pre.status.may_become(pre.left_by(pre.step_deposit(signers, who, amount)).status),
        pre.status.may_become(pre.left_by(pre.step_release_payment(signers, who)).status),
        !(pre.status is Released) ==> pre.status.may_become(
            pre.left_by(pre.step_handle_default(signers, who)).status,
        ),
{
}

/// `Released` and `Default` absorb: no deposit, release or setup leads out
/// of either, and a declaration of default leaves `Default` as it is.
pub proof fn law_terminal_status_is_kept(
    pre: EscrowState,
    signers: Set<Identity>,
    who: Identity,
    amount: i128,
    terms: EscrowTerms,
)
    requires
        pre.inv(),
        pre.status.is_terminal(),
    ensures
        pre.left_by(pre.step_initialize(signers, terms)).status == pre.status,
        pre.left_by(pre.step_deposit(signers, who, amount)).status == pre.status,
        pre.left_by(pre.step_release_payment(signers, who)).status == pre.status,
        pre.status is Default ==> pre.left_by(pre.step_handle_default(signers, who)).status
            == pre.status,
{
}

/// A deposit of nothing or less, or into an escrow that is released or in
/// default, is refused.
pub proof fn law_deposit_refused(
    pre: EscrowState,
    signers: Set<Identity>,
    investor: Identity,
    amount: i128,
)
    requires
        amount <= 0 || !pre.status.accepts_deposits(),
    ensures
        pre.step_deposit(signers, investor, amount) is Err,
        pre.left_by(pre.step_deposit(signers, investor, amount)) == pre,
{
}

} // verus!
