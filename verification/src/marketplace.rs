//! The marketplace: a catalog of listings, each offering tokens of one
//! invoice, and an index of the listings that are open for purchase.
//!
//! A purchase is bookkeeping only: it meters what is sold against what is
//! available. Moving the tokens and the funds is left to whoever composes
//! the marketplace with the token and the escrow.
//!
//! [`MarketState`] is the mathematical model, with one spec function per
//! operation. [`Marketplace`] is the executable state; each of its
//! operations is proved to take exactly the step of the model.

use crate::error::Error;
use crate::identity::{Credentials, Identity};
use crate::table::{
    distinct_keys, lemma_table_absent, lemma_table_entry, lemma_table_keys, lemma_table_push,
    lemma_table_update, table_of,
};
use vstd::prelude::*;

verus! {

/// One offer of tokens.
#[derive(Clone, Copy, Debug, PartialEq, Eq, Structural)]
pub struct Listing {
    /// The token contract of the invoice.
    pub invoice_token: Identity,
    /// The escrow of the deal.
    pub escrow: Identity,
    pub price_per_token: i128,
    /// The least amount that one purchase may take.
    pub min_investment: i128,
    pub total_available: i128,
    pub total_sold: i128,
    /// Whether the listing is open for purchase.
    pub is_active: bool,
    /// The ledger time at which the listing was made.
    pub created_at: u64,
}

impl Listing {
    /// What is left to buy.
    pub open spec fn remaining(self) -> int {
        self.total_available - self.total_sold
    }

    /// What is sold is not negative and not more than what is available.
    pub open spec fn is_metered(self) -> bool {
        0 <= self.total_sold <= self.total_available
    }

    /// A listing that is open has something left to buy.
    pub open spec fn is_open_only_unsold(self) -> bool {
        self.is_active ==> self.total_sold < self.total_available
    }

    /// This offer with nothing sold, and open.
    pub open spec fn as_opened(self) -> Listing {
        Listing { total_sold: 0, is_active: true, ..self }
    }

    /// The listing as it is first made: nothing sold, and open.
    pub open spec fn opened(
        invoice_token: Identity,
        escrow: Identity,
        price_per_token: i128,
        min_investment: i128,
        total_available: i128,
        created_at: u64,
    ) -> Listing {
        Listing {
            invoice_token,
            escrow,
            price_per_token,
            min_investment,
            total_available,
            total_sold: 0,
            is_active: true,
            created_at,
        }
    }
}

/// The test that an id is another one than `id`.
pub open spec fn other_than(id: u64) -> spec_fn(u64) -> bool {
    |other: u64| other != id
}

/// The index without any occurrence of `id`, in the order it had.
pub open spec fn without(index: Seq<u64>, id: u64) -> Seq<u64> {
    index.filter(other_than(id))
}

/// `without` keeps exactly the ids that differ from the one taken out.
pub proof fn lemma_without_contains(index: Seq<u64>, id: u64)
    ensures
        forall|other: u64| #[trigger]
            without(index, id).contains(other) <==> index.contains(other) && other != id,
{
    let keep = other_than(id);
    assert forall|other: u64| #[trigger]
        without(index, id).contains(other) <==> index.contains(other) && other != id by {
        if index.filter(keep).contains(other) {
            index.lemma_filter_contains_rev(keep, other);
            let i = choose|i: int| 0 <= i < index.filter(keep).len() && index.filter(keep)[i] == other;
            index.lemma_filter_pred(keep, i);
        }
        if index.contains(other) && other != id {
            let i = choose|i: int| 0 <= i < index.len() && index[i] == other;
            index.lemma_filter_contains(keep, i);
        }
    }
}

/// The mathematical state of a marketplace.
pub struct MarketState {
    /// The administrator, once the marketplace is initialized.
    pub admin: Option<Identity>,
    /// The catalog: every listing ever made, by its id.
    pub listings: Map<u64, Listing>,
    /// The index of the open listings, in the order they were listed.
    pub active: Seq<u64>,
}

impl MarketState {
    /// The state made of an administrator, a list of listings by id and an
    /// index.
    pub open spec fn of_parts(
        admin: Option<Identity>,
        listings: Seq<(u64, Listing)>,
        active: Seq<u64>,
    ) -> MarketState {
        MarketState { admin, listings: table_of(listings), active }
    }

    /// `id` is in the catalog and open.
    pub open spec fn is_listed_active(self, id: u64) -> bool {
        self.listings.contains_key(id) && self.listings[id].is_active
    }

    /// What holds of every marketplace: the index holds exactly the ids of
    /// the open listings, and a marketplace that was never initialized has
    /// no listing.
    pub open spec fn inv(self) -> bool {
        &&& self.listings.dom().finite()
        &&& forall|id: u64| #[trigger] self.active.contains(id) <==> self.is_listed_active(id)
        &&& self.admin is None ==> self.listings == Map::<u64, Listing>::empty()
    }

    /// Setting up the marketplace with its administrator, in a call that
    /// carries the credentials of `signers`. The index starts empty.
    pub open spec fn step_init(
        self,
        signers: Set<Identity>,
        admin: Identity,
    ) -> Result<MarketState, Error> {
        if !signers.contains(admin) {
            Err(Error::Unauthorized)
        } else if self.admin is Some {
            Err(Error::AlreadyInitialized)
        } else {
            Ok(MarketState { admin: Some(admin), listings: self.listings, active: Seq::empty() })
        }
    }

    /// Listing `offer` under `id` by `admin`, with nothing sold and open, in
    /// a call that carries the credentials of `signers`. A listing that was
    /// there under `id` is overwritten, and `id` is appended to the index in
    /// any case.
    pub open spec fn step_list(
        self,
        signers: Set<Identity>,
        admin: Identity,
        id: u64,
        offer: Listing,
    ) -> Result<MarketState, Error> {
        if !signers.contains(admin) {
            Err(Error::Unauthorized)
        } else {
            match self.admin {
                None => Err(Error::NotFound),
                Some(stored) => if admin != stored {
                    Err(Error::Unauthorized)
                } else {
                    Ok(
                        MarketState {
                            admin: self.admin,
                            listings: self.listings.insert(id, offer.as_opened()),
                            active: self.active.push(id),
                        },
                    )
                },
            }
        }
    }

    /// The purchase of `amount` from listing `id` by `buyer`, in a call that
    /// carries the credentials of `signers`. The listing closes, and leaves
    /// the index, when nothing is left.
    pub open spec fn step_buy(
        self,
        signers: Set<Identity>,
        buyer: Identity,
        id: u64,
        amount: i128,
    ) -> Result<MarketState, Error> {
        if !signers.contains(buyer) {
            Err(Error::Unauthorized)
        } else if !self.is_listed_active(id) {
            Err(Error::InvalidState)
        } else {
            let listing = self.listings[id];
            let sold = listing.total_sold + amount;
            if amount < listing.min_investment {
                Err(Error::InvalidArgument)
            } else if !(i128::MIN <= listing.remaining() <= i128::MAX) {
                Err(Error::Overflow)
            } else if amount > listing.remaining() {
                Err(Error::InsufficientAvailability)
            } else if sold < i128::MIN {
                Err(Error::Overflow)
            } else if sold >= listing.total_available {
                Ok(
                    MarketState {
                        admin: self.admin,
                        listings: self.listings.insert(
                            id,
                            Listing { total_sold: sold as i128, is_active: false, ..listing },
                        ),
                        active: without(self.active, id),
                    },
                )
            } else {
                Ok(
                    MarketState {
                        admin: self.admin,
                        listings: self.listings.insert(
                            id,
                            Listing { total_sold: sold as i128, ..listing },
                        ),
                        active: self.active,
                    },
                )
            }
        }
    }

    /// The removal of listing `id` by `admin`, in a call that carries the
    /// credentials of `signers`. The listing stays in the catalog, closed.
    pub open spec fn step_remove(
        self,
        signers: Set<Identity>,
        admin: Identity,
        id: u64,
    ) -> Result<MarketState, Error> {
        if !signers.contains(admin) {
            Err(Error::Unauthorized)
        } else {
            match self.admin {
                None => Err(Error::NotFound),
                Some(stored) => if admin != stored {
                    Err(Error::Unauthorized)
                } else if !self.listings.contains_key(id) {
                    Err(Error::NotFound)
                } else {
                    Ok(
                        MarketState {
                            admin: self.admin,
                            listings: self.listings.insert(
                                id,
                                Listing { is_active: false, ..self.listings[id] },
                            ),
                            active: without(self.active, id),
                        },
                    )
                },
            }
        }
    }

    /// The state that a call leaves: the next state, or `self` where the
    /// call was refused.
    pub open spec fn left_by(self, outcome: Result<MarketState, Error>) -> MarketState {
        match outcome {
            Ok(next) => next,
            Err(_) => self,
        }
    }
}

/// Where `id` stands among the first `end` of `entries`, if anywhere.
fn find_listing(entries: &Vec<(u64, Listing)>, end: usize, id: u64) -> (at: Option<usize>)
    requires
        end <= entries@.len(),
    ensures
        match at {
            Some(i) => i < end && entries@[i as int].0 == id,
            None => forall|j: int| 0 <= j < end ==> entries@[j].0 != id,
        },
{
    let mut i: usize = 0;
    while i < end
        invariant
            i <= end <= entries@.len(),
            forall|j: int| 0 <= j < i ==> entries@[j].0 != id,
        decreases end - i,
    {
        if entries[i].0 == id {
            return Some(i);
        }
        i += 1;
    }
    None
}

/// Whether `id` occurs in `index`.
fn index_holds(index: &Vec<u64>, id: u64) -> (yes: bool)
    ensures
        yes == index@.contains(id),
{
    let mut i: usize = 0;
    while i < index.len()
        invariant
            i <= index.len(),
            forall|j: int| 0 <= j < i ==> index@[j] != id,
        decreases index.len() - i,
    {
        if index[i] == id {
            return true;
        }
        i += 1;
    }
    false
}

/// The executable marketplace.
#[derive(Debug)]
pub struct Marketplace {
    admin: Option<Identity>,
    entries: Vec<(u64, Listing)>,
    active: Vec<u64>,
}

impl View for Marketplace {
    type V = MarketState;

    closed spec fn view(&self) -> MarketState {
        MarketState { admin: self.admin, listings: table_of(self.entries@), active: self.active@ }
    }
}

impl Marketplace {
    /// No listing id occurs twice among the entries.
    pub closed spec fn well_kept(&self) -> bool {
        distinct_keys(self.entries@)
    }

    /// Well-formedness: the invariant of the model holds of this
    /// marketplace.
    pub open spec fn wf(&self) -> bool {
        self.well_kept() && self@.inv()
    }

    /// A marketplace that is not initialized yet.
    pub fn new() -> (market: Marketplace)
        ensures
            market.wf(),
            market@ == (MarketState { admin: None, listings: Map::empty(), active: Seq::empty() }),
    {
        let market = Marketplace { admin: None, entries: Vec::new(), active: Vec::new() };
        assert(market@.active =~= Seq::<u64>::empty());
        market
    }

    /// The marketplace that was stored as these parts, or nothing where the
    /// parts are not those of a marketplace: no id may occur twice among the
    /// listings, and the state they make with the administrator and the
    /// index must meet the invariant.
    pub fn restore(
        admin: Option<Identity>,
        listings: Vec<(u64, Listing)>,
        active: Vec<u64>,
    ) -> (restored: Option<Marketplace>)
        ensures
            restored is Some <==> distinct_keys(listings@) && MarketState::of_parts(
                admin,
                listings@,
                active@,
            ).inv(),
            restored matches Some(market) ==> market.wf() && market@ == MarketState::of_parts(
                admin,
                listings@,
                active@,
            ),
    {
        let count = listings.len();
        let mut i: usize = 0;
        while i < count
            invariant
                i <= count,
                count == listings.len(),
                forall|a: int, b: int| 0 <= a < b < i ==> listings@[a].0 != listings@[b].0,
            decreases count - i,
        {
            if find_listing(&listings, i, listings[i].0).is_some() {
                return None;
            }
            i += 1;
        }
        proof {
            lemma_table_keys(listings@);
        }
        if admin.is_none() && count != 0 {
            proof {
                lemma_table_entry(listings@, 0);
            }
            return None;
        }
        let mut j: usize = 0;
        while j < active.len()
            invariant
                j <= active.len(),
                distinct_keys(listings@),
                forall|a: int|
                    0 <= a < j ==> MarketState::of_parts(
                        admin,
                        listings@,
                        active@,
                    ).is_listed_active(#[trigger] active@[a]),
            decreases active.len() - j,
        {
            let id = active[j];
            let open = match find_listing(&listings, listings.len(), id) {
                Some(at) => {
                    proof {
                        lemma_table_entry(listings@, at as int);
                    }
                    listings[at].1.is_active
                },
                None => {
                    proof {
                        lemma_table_absent(listings@, id);
                    }
                    false
                },
            };
            if !open {
                proof {
                    let model = MarketState::of_parts(admin, listings@, active@);
                    assert(model.active[j as int] == id);
                    assert(model.active.contains(id) && !model.is_listed_active(id));
                }
                return None;
            }
            j += 1;
        }
        let mut k: usize = 0;
        while k < count
            invariant
                k <= count,
                count == listings.len(),
                distinct_keys(listings@),
                forall|a: int|
                    0 <= a < k && (#[trigger] listings@[a]).1.is_active ==> active@.contains(
                        listings@[a].0,
                    ),
            decreases count - k,
        {
            if listings[k].1.is_active && !index_holds(&active, listings[k].0) {
                proof {
                    let model = MarketState::of_parts(admin, listings@, active@);
                    lemma_table_entry(listings@, k as int);
                    assert(!model.active.contains(listings@[k as int].0) && model.is_listed_active(
                        listings@[k as int].0,
                    ));
                }
                return None;
            }
            k += 1;
        }
        proof {
            let model = MarketState::of_parts(admin, listings@, active@);
            assert forall|id: u64| #[trigger]
                model.active.contains(id) <==> model.is_listed_active(id) by {
                if model.is_listed_active(id) {
                    let a = choose|a: int| 0 <= a < listings@.len() && #[trigger] listings@[a].0 == id;
                    lemma_table_entry(listings@, a);
                }
            }
            if admin is None {
                assert(table_of(listings@) =~= Map::<u64, Listing>::empty());
            }
        }
        Some(Marketplace { admin, entries: listings, active })
    }

    /// The administrator, once the marketplace is set up.
    pub fn admin(&self) -> (admin: Option<Identity>)
        ensures
            admin == self@.admin,
    {
        self.admin
    }

    /// The catalog as a list, one pair of id and listing for each listing.
    pub fn listings(&self) -> (listings: Vec<(u64, Listing)>)
        requires
            self.wf(),
        ensures
            distinct_keys(listings@),
            table_of(listings@) == self@.listings,
    {
        let mut listings: Vec<(u64, Listing)> = Vec::new();
        let mut i: usize = 0;
        while i < self.entries.len()
            invariant
                i <= self.entries.len(),
                listings@ == self.entries@.take(i as int),
            decreases self.entries.len() - i,
        {
            listings.push(self.entries[i]);
            proof {
                assert(self.entries@.take(i + 1) =~= self.entries@.take(i as int).push(
                    self.entries@[i as int],
                ));
            }
            i += 1;
        }
        proof {
            assert(self.entries@.take(i as int) =~= self.entries@);
        }
        listings
    }

    /// `at` is where `id` stands among the entries, or nothing where no
    /// listing was made under `id`.
    spec fn finds(&self, id: u64, at: Option<usize>) -> bool {
        match at {
            Some(i) => i < self.entries@.len() && self.entries@[i as int].0 == id,
            None => forall|j: int| 0 <= j < self.entries@.len() ==> self.entries@[j].0 != id,
        }
    }

    /// Where `id` stands among the entries, if anywhere.
    fn position(&self, id: u64) -> (at: Option<usize>)
        ensures
            self.finds(id, at),
    {
        find_listing(&self.entries, self.entries.len(), id)
    }

    /// Rebuilds the index without `id`, by one pass over it.
    fn drop_from_index(&mut self, id: u64)
        ensures
            final(self).admin == old(self).admin,
            final(self).entries == old(self).entries,
            final(self).active@ == without(old(self).active@, id),
    {
        let mut kept: Vec<u64> = Vec::new();
        let mut i: usize = 0;
        proof {
            reveal(Seq::filter);
            assert(self.active@.take(0) =~= Seq::<u64>::empty());
        }
        while i < self.active.len()
            invariant
                i <= self.active.len(),
                kept@ == without(self.active@.take(i as int), id),
            decreases self.active.len() - i,
        {
            let other = self.active[i];
            proof {
                assert(self.active@.take(i + 1) =~= self.active@.take(i as int).push(other));
                self.active@.take(i as int).lemma_filter_push(other, other_than(id));
            }
            if other != id {
                kept.push(other);
            }
            i += 1;
        }
        proof {
            assert(self.active@.take(i as int) =~= self.active@);
        }
        self.active = kept;
    }

    /// Sets up the marketplace with its administrator, once. Refused
    /// without the credential of `admin` and on a marketplace set up before.
    pub fn init(&mut self, creds: &Credentials, admin: Identity) -> (outcome: Result<(), Error>)
        requires
            old(self).wf(),
        ensures
            final(self).wf(),
            match old(self)@.step_init(creds@, admin) {
                Ok(next) => outcome is Ok && final(self)@ == next,
                Err(reason) => outcome == Err::<(), Error>(reason) && final(self)@ == old(self)@,
            },
    {
        if !creds.authorizes(admin) {
            return Err(Error::Unauthorized);
        }
        if self.admin.is_some() {
            return Err(Error::AlreadyInitialized);
        }
        self.admin = Some(admin);
        self.active = Vec::new();
        proof {
            assert(self@.active =~= Seq::<u64>::empty());
        }
        Ok(())
    }

    /// Lists tokens for sale under `id`, with nothing sold and open for
    /// purchase, made at ledger time `now`. A listing that was there under
    /// `id` is overwritten. Refused without the credential of `admin`, on a
    /// marketplace that was never set up, and where `admin` is not the
    /// administrator.
    pub fn list(
        &mut self,
        creds: &Credentials,
        admin: Identity,
        id: u64,
        token: Identity,
        escrow: Identity,
        price: i128,
        min: i128,
        amt: i128,
        now: u64,
    ) -> (outcome: Result<(), Error>)
        requires
            old(self).wf(),
        ensures
            final(self).wf(),
            match old(self)@.step_list(
                creds@,
                admin,
                id,
                Listing::opened(token, escrow, price, min, amt, now),
            ) {
                Ok(next) => outcome is Ok && final(self)@ == next,
                Err(reason) => outcome == Err::<(), Error>(reason) && final(self)@ == old(self)@,
            },
    {
        if !creds.authorizes(admin) {
            return Err(Error::Unauthorized);
        }
        let stored_admin = match self.admin {
            Some(stored) => stored,
            None => {
                return Err(Error::NotFound);
            },
        };
        if admin != stored_admin {
            return Err(Error::Unauthorized);
        }
        let listing = Listing {
            invoice_token: token,
            escrow,
            price_per_token: price,
            min_investment: min,
            total_available: amt,
            total_sold: 0,
            is_active: true,
            created_at: now,
        };
        let at = self.position(id);
        self.write_at(id, at, listing);
        self.active.push(id);
        proof {
            let pre = old(self)@;
            let post = self@;
            assert forall|other: u64| #[trigger]
                post.active.contains(other) <==> post.is_listed_active(other) by {
                if pre.active.contains(other) {
                    let i = choose|i: int| 0 <= i < pre.active.len() && pre.active[i] == other;
                    assert(post.active[i] == other);
                }
                if other == id {
                    assert(post.active[post.active.len() - 1] == other);
                }
            }
        }
        Ok(())
    }

    /// Writes `listing` into the catalog under `id`: into the entry at
    /// `at`, or into a new entry.
    fn write_at(&mut self, id: u64, at: Option<usize>, listing: Listing)
        requires
            old(self).well_kept(),
            old(self).finds(id, at),
        ensures
            final(self).well_kept(),
            final(self).admin == old(self).admin,
            final(self).active == old(self).active,
            final(self)@.listings == old(self)@.listings.insert(id, listing),
            final(self)@.listings.dom().finite(),
    {
        match at {
            Some(i) => {
                proof {
                    lemma_table_update(self.entries@, i as int, listing);
                }
                self.entries.set(i, (id, listing));
            },
            None => {
                proof {
                    lemma_table_absent(self.entries@, id);
                    lemma_table_push(self.entries@, id, listing);
                }
                self.entries.push((id, listing));
            },
        }
        proof {
            lemma_table_keys(self.entries@);
        }
    }

    /// The listing in the entry at `at`, if there is one.
    fn listing_at(&self, id: u64, at: Option<usize>) -> (found: Option<Listing>)
        requires
            self.well_kept(),
            self.finds(id, at),
        ensures
            found == if self@.listings.contains_key(id) {
                Some(self@.listings[id])
            } else {
                None
            },
    {
        match at {
            Some(i) => {
                proof {
                    lemma_table_entry(self.entries@, i as int);
                }
                Some(self.entries[i].1)
            },
            None => {
                proof {
                    lemma_table_absent(self.entries@, id);
                }
                None
            },
        }
    }

    /// Buys `amt` from listing `id`: adds it to what is sold and closes the
    /// listing when nothing is left. Refused without the credential of
    /// `buyer`, for a listing that is missing or closed, for less than the
    /// listing's minimum, for more than is left, and where the amounts
    /// would not fit 128 bits. A refused purchase changes nothing.
    pub fn buy(
        &mut self,
        creds: &Credentials,
        buyer: Identity,
        id: u64,
        amt: i128,
    ) -> (outcome: Result<(), Error>)
        requires
            old(self).wf(),
        ensures
            final(self).wf(),
            match old(self)@.step_buy(creds@, buyer, id, amt) {
                Ok(next) => outcome is Ok && final(self)@ == next,
                Err(reason) => outcome == Err::<(), Error>(reason) && final(self)@ == old(self)@,
            },
    {
        if !creds.authorizes(buyer) {
            return Err(Error::Unauthorized);
        }
        let at = self.position(id);
        let mut listing = match self.listing_at(id, at) {
            Some(listing) => listing,
            None => {
                return Err(Error::InvalidState);
            },
        };
        if !listing.is_active {
            return Err(Error::InvalidState);
        }
        if amt < listing.min_investment {
            return Err(Error::InvalidArgument);
        }
        let remaining = match listing.total_available.checked_sub(listing.total_sold) {
            Some(remaining) => remaining,
            None => {
                return Err(Error::Overflow);
            },
        };
        if amt > remaining {
            return Err(Error::InsufficientAvailability);
        }
        let sold = match listing.total_sold.checked_add(amt) {
            Some(sold) => sold,
            None => {
                return Err(Error::Overflow);
            },
        };
        listing.total_sold = sold;
        if sold >= listing.total_available {
            listing.is_active = false;
            self.write_at(id, at, listing);
            self.drop_from_index(id);
            proof {
                lemma_without_contains(old(self)@.active, id);
            }
        } else {
            self.write_at(id, at, listing);
        }
        Ok(())
    }

    /// The listing under `id`. Refused for an id under which nothing was
    /// ever listed.
    pub fn get(&self, id: u64) -> (outcome: Result<Listing, Error>)
        requires
            self.wf(),
        ensures
            outcome == if self@.listings.contains_key(id) {
                Ok::<Listing, Error>(self@.listings[id])
            } else {
                Err::<Listing, Error>(Error::NotFound)
            },
    {
        let at = self.position(id);
        match self.listing_at(id, at) {
            Some(listing) => Ok(listing),
            None => Err(Error::NotFound),
        }
    }

    /// Closes listing `id` and takes it out of the index. Refused without
    /// the credential of `admin`, on a marketplace that was never set up,
    /// where `admin` is not the administrator, and for an id under which
    /// nothing was ever listed.
    pub fn remove(&mut self, creds: &Credentials, admin: Identity, id: u64) -> (outcome: Result<(), Error>)
        requires
            old(self).wf(),
        ensures
            final(self).wf(),
            match old(self)@.step_remove(creds@, admin, id) {
                Ok(next) => outcome is Ok && final(self)@ == next,
                Err(reason) => outcome == Err::<(), Error>(reason) && final(self)@ == old(self)@,
            },
    {
        if !creds.authorizes(admin) {
            return Err(Error::Unauthorized);
        }
        let stored_admin = match self.admin {
            Some(stored) => stored,
            None => {
                return Err(Error::NotFound);
            },
        };
        if admin != stored_admin {
            return Err(Error::Unauthorized);
        }
        let at = self.position(id);
        let mut listing = match self.listing_at(id, at) {
            Some(listing) => listing,
            None => {
                return Err(Error::NotFound);
            },
        };
        listing.is_active = false;
        self.write_at(id, at, listing);
        self.drop_from_index(id);
        proof {
            lemma_without_contains(old(self)@.active, id);
        }
        Ok(())
    }

    /// The ids of the open listings, in the order they were listed: the
    /// index holds an id exactly when the listing under it is open.
    pub fn get_active_listings(&self) -> (ids: Vec<u64>)
        requires
            self.wf(),
        ensures
            ids@ == self@.active,
            forall|id: u64| #[trigger] ids@.contains(id) <==> self@.is_listed_active(id),
    {
        let mut ids: Vec<u64> = Vec::new();
        let mut i: usize = 0;
        while i < self.active.len()
            invariant
                i <= self.active.len(),
                ids@ == self.active@.take(i as int),
            decreases self.active.len() - i,
        {
            ids.push(self.active[i]);
            proof {
                assert(self.active@.take(i + 1) =~= self.active@.take(i as int).push(
                    self.active@[i as int],
                ));
            }
            i += 1;
        }
        proof {
            assert(self.active@.take(i as int) =~= self.active@);
            assert forall|id: u64| #[trigger] ids@.contains(id) <==> self@.is_listed_active(id) by {
                assert(self@.active.contains(id) <==> self@.is_listed_active(id));
            }
        }
        ids
    }
}

/// Every operation, taken or refused, leaves a marketplace that meets the
/// invariant: the index holds exactly the ids of the open listings.
pub proof fn law_index_is_the_open_listings(
    pre: MarketState,
    signers: Set<Identity>,
    who: Identity,
    id: u64,
    offer: Listing,
    amount: i128,
)
    requires
        pre.inv(),
    ensures
        pre.left_by(pre.step_init(signers, who)).inv(),
        pre.left_by(pre.step_list(signers, who, id, offer)).inv(),
        pre.left_by(pre.step_buy(signers, who, id, amount)).inv(),
        pre.left_by(pre.step_remove(signers, who, id)).inv(),
{
    lemma_without_contains(pre.active, id);
    let listed = pre.left_by(pre.step_list(signers, who, id, offer));
    assert forall|other: u64| #[trigger]
        listed.active.contains(other) <==> listed.is_listed_active(other) by {
        if pre.step_list(signers, who, id, offer) is Ok {
            if pre.active.contains(other) {
                let i = choose|i: int| 0 <= i < pre.active.len() && pre.active[i] == other;
                assert(listed.active[i] == other);
            }
            if other == id {
                assert(listed.active[listed.active.len() - 1] == other);
            }
        }
    }
    let set_up = pre.left_by(pre.step_init(signers, who));
    assert forall|other: u64| #[trigger]
        set_up.active.contains(other) <==> set_up.is_listed_active(other) by {
        assert(pre.active.contains(other) <==> pre.is_listed_active(other));
    }
}

/// Once set, the administrator never changes, and no listing ever leaves
/// the catalog.
pub proof fn law_catalog_only_grows(
    pre: MarketState,
    signers: Set<Identity>,
    who: Identity,
    id: u64,
    other: u64,
    offer: Listing,
    amount: i128,
)
    ensures
        ({
            let set_up = pre.left_by(pre.step_init(signers, who));
            let listed = pre.left_by(pre.step_list(signers, who, other, offer));
            let bought = pre.left_by(pre.step_buy(signers, who, other, amount));
            let removed = pre.left_by(pre.step_remove(signers, who, other));
            &&& pre.admin is Some ==> set_up.admin == pre.admin && listed.admin == pre.admin
                && bought.admin == pre.admin && removed.admin == pre.admin
            &&& pre.listings.contains_key(id) ==> set_up.listings.contains_key(id)
                && listed.listings.contains_key(id) && bought.listings.contains_key(id)
                && removed.listings.contains_key(id)
        }),
{
}

/// What is sold stays between nothing and what is available: a listing of
/// which that holds, and whose minimum is not negative, is left so by every
/// purchase and removal, of this listing or another, and by listing under
/// another id. A new listing is so exactly when what it makes available is
/// not negative.
pub proof fn law_sold_stays_metered(
    pre: MarketState,
    signers: Set<Identity>,
    who: Identity,
    id: u64,
    other: u64,
    offer: Listing,
    amount: i128,
)
    requires
        pre.inv(),
        pre.listings.contains_key(id),
        pre.listings[id].is_metered(),
        pre.listings[id].min_investment >= 0,
    ensures
        pre.left_by(pre.step_init(signers, who)).listings[id].is_metered(),
        pre.left_by(pre.step_buy(signers, who, other, amount)).listings[id].is_metered(),
        pre.left_by(pre.step_remove(signers, who, other)).listings[id].is_metered(),
        other != id ==> pre.left_by(pre.step_list(signers, who, other, offer)).listings[id]
            == pre.listings[id],
        offer.as_opened().is_metered() <==> offer.total_available >= 0,
{
}

/// A listing closes for good once it is sold out. After a purchase that was
/// taken, the listing is open exactly while something is left; a listing
/// that is closed stays in the catalog and stays closed under every
/// purchase and removal, and under the listing of another id.
pub proof fn law_closed_for_good(
    pre: MarketState,
    signers: Set<Identity>,
    who: Identity,
    id: u64,
    other: u64,
    offer: Listing,
    amount: i128,
)
    requires
        pre.inv(),
        pre.listings.contains_key(id),
    ensures
        pre.step_buy(signers, who, id, amount) is Ok ==> ({
            let bought = pre.left_by(pre.step_buy(signers, who, id, amount)).listings[id];
            bought.is_active == (bought.total_sold < bought.total_available)
        }),
        !pre.listings[id].is_active ==> ({
            let set_up = pre.left_by(pre.step_init(signers, who));
            let bought = pre.left_by(pre.step_buy(signers, who, other, amount));
            let removed = pre.left_by(pre.step_remove(signers, who, other));
            let listed = pre.left_by(pre.step_list(signers, who, other, offer));
            &&& !set_up.is_listed_active(id) && set_up.listings.contains_key(id)
            &&& !bought.is_listed_active(id) && bought.listings.contains_key(id)
            &&& !removed.is_listed_active(id) && removed.listings.contains_key(id)
            &&& other != id ==> !listed.is_listed_active(id) && listed.listings.contains_key(id)
        }),
{
}

/// An open listing has something left: a listing of which that holds is
/// left so by every purchase and removal, of this listing or another, and
/// by listing under another id. A new listing is so exactly when it makes
/// something available.
pub proof fn law_open_listings_have_something_left(
    pre: MarketState,
    signers: Set<Identity>,
    who: Identity,
    id: u64,
    other: u64,
    offer: Listing,
    amount: i128,
)
    requires
        pre.inv(),
        pre.listings.contains_key(id),
        pre.listings[id].is_open_only_unsold(),
    ensures
        pre.left_by(pre.step_init(signers, who)).listings[id].is_open_only_unsold(),
        pre.left_by(pre.step_buy(signers, who, other, amount)).listings[id].is_open_only_unsold(),
        pre.left_by(pre.step_remove(signers, who, other)).listings[id].is_open_only_unsold(),
        other != id ==> pre.left_by(pre.step_list(signers, who, other, offer)).listings[id]
            == pre.listings[id],
        offer.as_opened().is_open_only_unsold() <==> offer.total_available > 0,
{
}

/// A purchase of less than the listing's minimum is refused and changes
/// nothing.
pub proof fn law_purchase_below_minimum(
    pre: MarketState,
    signers: Set<Identity>,
    buyer: Identity,
    id: u64,
    amount: i128,
)
    requires
        pre.listings.contains_key(id),
        amount < pre.listings[id].min_investment,
    ensures
        pre.step_buy(signers, buyer, id, amount) is Err,
        pre.left_by(pre.step_buy(signers, buyer, id, amount)) == pre,
{
}

} // verus!
