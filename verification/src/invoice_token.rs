//! The invoice token: a fungible ledger of fractional ownership of one
//! invoice, with minting by the administrator.
//!
//! [`TokenState`] is the mathematical model, with one spec function per
//! operation. [`InvoiceToken`] is the executable state; each of its
//! operations is proved to take exactly the step of the model.

use crate::error::Error;
use crate::identity::{Credentials, Identity};
use crate::ledger::{
    book_of, held, is_book, lemma_held_at_most_sum, lemma_sum_insert, sum_of, valid_holdings,
    Ledger,
};
use crate::table::lemma_table_entry;
use vstd::prelude::*;

verus! {

/// The mathematical state of an invoice token.
pub struct TokenState {
    /// The administrator, once the token is initialized.
    pub admin: Option<Identity>,
    /// The identifier of the invoice; empty before the token is initialized.
    pub invoice_id: Seq<char>,
    /// The digest of the invoice's metadata; empty before the token is
    /// initialized.
    pub metadata_hash: Seq<u8>,
    pub total_supply: int,
    /// What each identity holds.
    pub balances: Map<Identity, int>,
}

impl TokenState {
    /// The state made of an administrator, the invoice's identifier and
    /// digest, a supply and a list of balances.
    pub open spec fn of_parts(
        admin: Option<Identity>,
        invoice_id: Seq<char>,
        metadata_hash: Seq<u8>,
        total_supply: i128,
        balances: Seq<(Identity, i128)>,
    ) -> TokenState {
        TokenState {
            admin,
            invoice_id,
            metadata_hash,
            total_supply: total_supply as int,
            balances: book_of(balances),
        }
    }

    /// The balances after `amount` has moved from `from` to `to`: taken
    /// from the one, then added to the other.
    pub open spec fn moved(
        balances: Map<Identity, int>,
        from: Identity,
        to: Identity,
        amount: i128,
    ) -> Map<Identity, int> {
        let debited = balances.insert(from, held(balances, from) - amount);
        debited.insert(to, held(debited, to) + amount)
    }

    /// What holds of every token: the supply is the sum of the balances,
    /// and a token that was never initialized has no holder and no invoice.
    pub open spec fn inv(self) -> bool {
        &&& is_book(self.balances)
        &&& self.total_supply == sum_of(self.balances)
        &&& 0 <= self.total_supply <= i128::MAX
        &&& self.admin is None ==> {
            &&& self.balances == Map::<Identity, int>::empty()
            &&& self.invoice_id == Seq::<char>::empty()
            &&& self.metadata_hash == Seq::<u8>::empty()
        }
    }

    /// Setting up the token, in a call that carries the credentials of
    /// `signers`: the whole supply goes to `admin`.
    pub open spec fn step_initialize(
        self,
        signers: Set<Identity>,
        admin: Identity,
        invoice_id: Seq<char>,
        metadata_hash: Seq<u8>,
        total_supply: i128,
    ) -> Result<TokenState, Error> {
        if !signers.contains(admin) {
            Err(Error::Unauthorized)
        } else if self.admin is Some {
            Err(Error::AlreadyInitialized)
        } else if total_supply <= 0 {
            Err(Error::InvalidArgument)
        } else {
            Ok(
                TokenState {
                    admin: Some(admin),
                    invoice_id,
                    metadata_hash,
                    total_supply: total_supply as int,
                    balances: self.balances.insert(admin, total_supply as int),
                },
            )
        }
    }

    /// The transfer of `amount` from `from` to `to`, in a call that carries
    /// the credentials of `signers`.
    pub open spec fn step_transfer(
        self,
        signers: Set<Identity>,
        from: Identity,
        to: Identity,
        amount: i128,
    ) -> Result<TokenState, Error> {
        if !signers.contains(from) {
            Err(Error::Unauthorized)
        } else if amount <= 0 {
            Err(Error::InvalidArgument)
        } else if held(self.balances, from) < amount {
            Err(Error::InsufficientBalance)
        } else {
            Ok(TokenState { balances: Self::moved(self.balances, from, to, amount), ..self })
        }
    }

    /// The minting of `amount` to `to`, in a call that carries the
    /// credentials of `signers`, which must include the administrator.
    pub open spec fn step_mint(
        self,
        signers: Set<Identity>,
        to: Identity,
        amount: i128,
    ) -> Result<TokenState, Error> {
        match self.admin {
            None => Err(Error::NotFound),
            Some(admin) => if !signers.contains(admin) {
                Err(Error::Unauthorized)
            } else if amount <= 0 {
                Err(Error::InvalidArgument)
            } else if self.total_supply + amount > i128::MAX {
                Err(Error::Overflow)
            } else {
                Ok(
                    TokenState {
                        total_supply: self.total_supply + amount,
                        balances: self.balances.insert(to, held(self.balances, to) + amount),
                        ..self
                    },
                )
            },
        }
    }

    /// The burning of `amount` held by `from`, in a call that carries the
    /// credentials of `signers`. The supply may reach zero.
    pub open spec fn step_burn(
        self,
        signers: Set<Identity>,
        from: Identity,
        amount: i128,
    ) -> Result<TokenState, Error> {
        if !signers.contains(from) {
            Err(Error::Unauthorized)
        } else if amount <= 0 {
            Err(Error::InvalidArgument)
        } else if held(self.balances, from) < amount {
            Err(Error::InsufficientBalance)
        } else {
            Ok(
                TokenState {
                    total_supply: self.total_supply - amount,
                    balances: self.balances.insert(from, held(self.balances, from) - amount),
                    ..self
                },
            )
        }
    }

    /// The state that a call leaves: the next state, or `self` where the
    /// call was refused.
    pub open spec fn left_by(self, outcome: Result<TokenState, Error>) -> TokenState {
        match outcome {
            Ok(next) => next,
            Err(_) => self,
        }
    }
}

/// The executable invoice token.
#[derive(Debug)]
pub struct InvoiceToken {
    admin: Option<Identity>,
    invoice_id: String,
    metadata_hash: Vec<u8>,
    balances: Ledger,
}

impl View for InvoiceToken {
    type V = TokenState;

    closed spec fn view(&self) -> TokenState {
        TokenState {
            admin: self.admin,
            invoice_id: self.invoice_id@,
            metadata_hash: self.metadata_hash@,
            total_supply: self.balances.running_total(),
            balances: self.balances@,
        }
    }
}

impl InvoiceToken {
    /// The book of balances is well-formed.
    pub closed spec fn well_kept(&self) -> bool {
        self.balances.wf()
    }

    /// Well-formedness: the invariant of the model holds of this token.
    pub open spec fn wf(&self) -> bool {
        self.well_kept() && self@.inv()
    }

    /// A token that is not initialized yet.
    pub fn new() -> (token: InvoiceToken)
        ensures
            token.wf(),
            token@ == (TokenState {
                admin: None,
                invoice_id: Seq::empty(),
                metadata_hash: Seq::empty(),
                total_supply: 0,
                balances: Map::empty(),
            }),
    {
        InvoiceToken {
            admin: None,
            invoice_id: String::new(),
            metadata_hash: Vec::new(),
            balances: Ledger::new(),
        }
    }

    /// The token that was stored as these parts, or nothing where the parts
    /// are not those of a token: the balances must be a valid list of
    /// holdings, and the state they make with the rest must meet the
    /// invariant.
    pub fn restore(
        admin: Option<Identity>,
        invoice_id: String,
        metadata_hash: Vec<u8>,
        total_supply: i128,
        balances: &Vec<(Identity, i128)>,
    ) -> (restored: Option<InvoiceToken>)
        ensures
            restored is Some <==> valid_holdings(balances@) && TokenState::of_parts(
                admin,
                invoice_id@,
                metadata_hash@,
                total_supply,
                balances@,
            ).inv(),
            restored matches Some(token) ==> token.wf() && token@ == TokenState::of_parts(
                admin,
                invoice_id@,
                metadata_hash@,
                total_supply,
                balances@,
            ),
    {
        let ledger = match Ledger::from_holdings(balances) {
            Some(ledger) => ledger,
            None => {
                return None;
            },
        };
        if ledger.total() != total_supply {
            return None;
        }
        if admin.is_none() {
            if balances.len() != 0 {
                proof {
                    lemma_table_entry(balances@, 0);
                    assert(book_of(balances@).contains_key(balances@[0].0));
                }
                return None;
            }
            if !invoice_id.as_str().is_empty() || metadata_hash.len() != 0 {
                return None;
            }
            assert(book_of(balances@) =~= Map::<Identity, int>::empty());
            assert(invoice_id@ =~= Seq::<char>::empty());
            assert(metadata_hash@ =~= Seq::<u8>::empty());
        }
        Some(InvoiceToken { admin, invoice_id, metadata_hash, balances: ledger })
    }

    /// The administrator, once the token is set up.
    pub fn admin(&self) -> (admin: Option<Identity>)
        ensures
            admin == self@.admin,
    {
        self.admin
    }

    /// The balances as a list of holdings, one for each holder.
    pub fn balances(&self) -> (balances: Vec<(Identity, i128)>)
        requires
            self.wf(),
        ensures
            valid_holdings(balances@),
            book_of(balances@) == self@.balances,
    {
        self.balances.holdings()
    }

    /// Sets up the token, once, and credits the whole supply to `admin`.
    /// Refused without the credential of `admin`, on a token set up before,
    /// and for a supply that is not positive.
    pub fn initialize(
        &mut self,
        creds: &Credentials,
        admin: Identity,
        invoice_id: String,
        metadata_hash: Vec<u8>,
        total_supply: i128,
    ) -> (outcome: Result<(), Error>)
        requires
            old(self).wf(),
        ensures
            final(self).wf(),
            match old(self)@.step_initialize(
                creds@,
                admin,
                invoice_id@,
                metadata_hash@,
                total_supply,
            ) {
                Ok(next) => outcome is Ok && final(self)@ == next,
                Err(reason) => outcome == Err::<(), Error>(reason) && final(self)@ == old(self)@,
            },
    {
        if !creds.authorizes(admin) {
            return Err(Error::Unauthorized);
        }
        if self.admin.is_some() {
            return Err(Error::AlreadyInitialized);
        }
        if total_supply <= 0 {
            return Err(Error::InvalidArgument);
        }
        self.admin = Some(admin);
        self.invoice_id = invoice_id;
        self.metadata_hash = metadata_hash;
        self.balances.credit(admin, total_supply);
        Ok(())
    }

    /// What `owner` holds; nothing for an identity the token has not seen.
    pub fn balance(&self, owner: Identity) -> (amount: i128)
        requires
            self.wf(),
        ensures
            amount == held(self@.balances, owner),
    {
        self.balances.amount_of(owner)
    }

    /// The supply: zero before the token is set up.
    pub fn total_supply(&self) -> (supply: i128)
        ensures
            supply == self@.total_supply,
    {
        self.balances.total()
    }

    /// The identifier of the invoice; empty before the token is set up.
    pub fn get_invoice_id(&self) -> (invoice_id: String)
        ensures
            invoice_id@ == self@.invoice_id,
    {
        self.invoice_id.clone()
    }

    /// The digest of the invoice's metadata; empty before the token is set
    /// up.
    pub fn get_metadata_hash(&self) -> (metadata_hash: Vec<u8>)
        ensures
            metadata_hash@ == self@.metadata_hash,
    {
        self.metadata_hash.clone()
    }

    /// Moves `amount` from `from` to `to`. Refused without the credential of
    /// `from`, for an amount that is not positive, and for more than `from`
    /// holds. A refused transfer changes no balance.
    pub fn transfer(
        &mut self,
        creds: &Credentials,
        from: Identity,
        to: Identity,
        amount: i128,
    ) -> (outcome: Result<(), Error>)
        requires
            old(self).wf(),
        ensures
            final(self).wf(),
            match old(self)@.step_transfer(creds@, from, to, amount) {
                Ok(next) => outcome is Ok && final(self)@ == next,
                Err(reason) => outcome == Err::<(), Error>(reason) && final(self)@ == old(self)@,
            },
            amount > held(old(self)@.balances, from) ==> {
                &&& outcome is Err
                &&& final(self)@ == old(self)@
            },
            final(self)@.total_supply == sum_of(final(self)@.balances),
            final(self)@.total_supply == old(self)@.total_supply,
    {
        if !creds.authorizes(from) {
            return Err(Error::Unauthorized);
        }
        if amount <= 0 {
            return Err(Error::InvalidArgument);
        }
        if !self.balances.debit(from, amount) {
            return Err(Error::InsufficientBalance);
        }
        self.balances.credit(to, amount);
        Ok(())
    }

    /// Creates `amount` new tokens for `to`. The call must carry the
    /// credential of the administrator. Refused on a token that was never
    /// set up, without that credential, for an amount that is not positive,
    /// and where the supply would not fit 128 bits.
    pub fn mint(
        &mut self,
        creds: &Credentials,
        to: Identity,
        amount: i128,
    ) -> (outcome: Result<(), Error>)
        requires
            old(self).wf(),
        ensures
            final(self).wf(),
            match old(self)@.step_mint(creds@, to, amount) {
                Ok(next) => outcome is Ok && final(self)@ == next,
                Err(reason) => outcome == Err::<(), Error>(reason) && final(self)@ == old(self)@,
            },
            final(self)@.total_supply == sum_of(final(self)@.balances),
    {
        let admin = match self.admin {
            Some(admin) => admin,
            None => {
                return Err(Error::NotFound);
            },
        };
        if !creds.authorizes(admin) {
            return Err(Error::Unauthorized);
        }
        if amount <= 0 {
            return Err(Error::InvalidArgument);
        }
        if self.balances.total().checked_add(amount).is_none() {
            return Err(Error::Overflow);
        }
        self.balances.credit(to, amount);
        Ok(())
    }

    /// Destroys `amount` of what `from` holds. Refused without the
    /// credential of `from`, for an amount that is not positive, and for
    /// more than `from` holds.
    pub fn burn(
        &mut self,
        creds: &Credentials,
        from: Identity,
        amount: i128,
    ) -> (outcome: Result<(), Error>)
        requires
            old(self).wf(),
        ensures
            final(self).wf(),
            match old(self)@.step_burn(creds@, from, amount) {
                Ok(next) => outcome is Ok && final(self)@ == next,
                Err(reason) => outcome == Err::<(), Error>(reason) && final(self)@ == old(self)@,
            },
            final(self)@.total_supply == sum_of(final(self)@.balances),
    {
        if !creds.authorizes(from) {
            return Err(Error::Unauthorized);
        }
        if amount <= 0 {
            return Err(Error::InvalidArgument);
        }
        if !self.balances.debit(from, amount) {
            return Err(Error::InsufficientBalance);
        }
        Ok(())
    }
}

/// Every operation, taken or refused, leaves a token that meets the
/// invariant: after every transfer, minting and burning the supply is the
/// sum of the balances.
pub proof fn law_supply_is_sum(
    pre: TokenState,
    signers: Set<Identity>,
    who: Identity,
    to: Identity,
    amount: i128,
    invoice_id: Seq<char>,
    metadata_hash: Seq<u8>,
)
    requires
        pre.inv(),
    ensures
        pre.left_by(pre.step_initialize(signers, who, invoice_id, metadata_hash, amount)).inv(),
        pre.left_by(pre.step_transfer(signers, who, to, amount)).inv(),
        pre.left_by(pre.step_mint(signers, to, amount)).inv(),
        pre.left_by(pre.step_burn(signers, who, amount)).inv(),
{
    lemma_held_at_most_sum(pre.balances, who);
    lemma_held_at_most_sum(pre.balances, to);
    lemma_sum_insert(pre.balances, who, amount as int);
    lemma_sum_insert(pre.balances, to, held(pre.balances, to) + amount);
    lemma_sum_insert(pre.balances, who, held(pre.balances, who) - amount);
    let debited = pre.balances.insert(who, held(pre.balances, who) - amount);
    lemma_sum_insert(debited, to, held(debited, to) + amount);
}

/// Once set, the administrator, the invoice's identifier and the digest of
/// its metadata never change.
pub proof fn law_setup_is_fixed(
    pre: TokenState,
    signers: Set<Identity>,
    who: Identity,
    to: Identity,
    amount: i128,
    invoice_id: Seq<char>,
    metadata_hash: Seq<u8>,
)
    requires
        pre.admin is Some,
    ensures
        ({
            let set_up = pre.left_by(
                pre.step_initialize(signers, who, invoice_id, metadata_hash, amount),
            );
            let moved = pre.left_by(pre.step_transfer(signers, who, to, amount));
            let minted = pre.left_by(pre.step_mint(signers, to, amount));
            let burned = pre.left_by(pre.step_burn(signers, who, amount));
            &&& set_up == pre
            &&& moved.admin == pre.admin && moved.invoice_id == pre.invoice_id
                && moved.metadata_hash == pre.metadata_hash
            &&& minted.admin == pre.admin && minted.invoice_id == pre.invoice_id
                && minted.metadata_hash == pre.metadata_hash
            &&& burned.admin == pre.admin && burned.invoice_id == pre.invoice_id
                && burned.metadata_hash == pre.metadata_hash
        }),
{
}

/// A transfer moves and neither makes nor destroys: the supply is as it
/// was, the sender holds `amount` less and the receiver `amount` more
/// (nothing changes where they are the same), and no one else's balance
/// changes.
pub proof fn law_transfer_conserves(
    pre: TokenState,
    signers: Set<Identity>,
    from: Identity,
    to: Identity,
    amount: i128,
)
    requires
        pre.inv(),
        pre.step_transfer(signers, from, to, amount) is Ok,
    ensures
        ({
            let next = pre.left_by(pre.step_transfer(signers, from, to, amount));
            &&& next.total_supply == pre.total_supply
            &&& sum_of(next.balances) == sum_of(pre.balances)
            &&& from != to ==> held(next.balances, from) == held(pre.balances, from) - amount
            &&& from != to ==> held(next.balances, to) == held(pre.balances, to) + amount
            &&& from == to ==> held(next.balances, from) == held(pre.balances, from)
            &&& forall|other: Identity|
                other != from && other != to ==> held(next.balances, other) == held(
                    pre.balances,
                    other,
                )
        }),
{
    law_supply_is_sum(pre, signers, from, to, amount, Seq::empty(), Seq::empty());
}

/// A transfer of more than the sender holds is refused, and leaves both
/// balances as they were.
pub proof fn law_transfer_beyond_balance(
    pre: TokenState,
    signers: Set<Identity>,
    from: Identity,
    to: Identity,
    amount: i128,
)
    requires
        amount > held(pre.balances, from),
    ensures
        pre.step_transfer(signers, from, to, amount) is Err,
        pre.left_by(pre.step_transfer(signers, from, to, amount)) == pre,
{
}

} // verus!
