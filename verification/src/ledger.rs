//! A book of amounts held by identities, with its running total.
//!
//! The mathematical model of a book is a finite `Map<Identity, int>` whose
//! amounts are never negative. An identity without an entry holds nothing.
//! [`Ledger`] is the executable book; it keeps the sum of its amounts beside
//! the entries and every operation keeps the two in step.

use crate::identity::Identity;
use crate::table::{
    distinct_keys, lemma_table_absent, lemma_table_entry, lemma_table_keys, lemma_table_push,
    lemma_table_update, table_of,
};
use vstd::prelude::*;

verus! {

/// The amount that `who` holds in `book`: zero without an entry.
pub open spec fn held(book: Map<Identity, int>, who: Identity) -> int {
    if book.contains_key(who) {
        book[who]
    } else {
        0
    }
}

/// The sum of all amounts in `book`.
pub open spec fn sum_of(book: Map<Identity, int>) -> int
    decreases book.dom().len(),
    when book.dom().finite()
{
    if book.dom().is_empty() {
        0
    } else {
        let k = book.dom().choose();
        book[k] + sum_of(book.remove(k))
    }
}

/// A book has finitely many entries and no negative amount.
pub open spec fn is_book(book: Map<Identity, int>) -> bool {
    &&& book.dom().finite()
    &&& forall|k: Identity| book.contains_key(k) ==> book[k] >= 0
}

/// The book that a list of holdings stands for: each pair is an owner and
/// the amount held.
pub open spec fn book_of(holdings: Seq<(Identity, i128)>) -> Map<Identity, int> {
    table_of(holdings).map_values(|amount: i128| amount as int)
}

/// A list of holdings that a [`Ledger`] can be made of: no owner twice, no
/// negative amount, and a sum that fits 128 bits.
pub open spec fn valid_holdings(holdings: Seq<(Identity, i128)>) -> bool {
    &&& distinct_keys(holdings)
    &&& forall|i: int| 0 <= i < holdings.len() ==> holdings[i].1 >= 0
    &&& sum_of(book_of(holdings)) <= i128::MAX
}

/// The sum of a book is the amount of any one entry plus the sum of the rest.
pub proof fn lemma_sum_split(book: Map<Identity, int>, who: Identity)
    requires
        book.dom().finite(),
        book.contains_key(who),
    ensures
        sum_of(book) == book[who] + sum_of(book.remove(who)),
    decreases book.dom().len(),
{
    let k = book.dom().choose();
    if k != who {
        lemma_sum_split(book.remove(k), who);
        lemma_sum_split(book.remove(who), k);
        assert(book.remove(k).remove(who) =~= book.remove(who).remove(k));
    }
}

/// Writing `amount` for `who` changes the sum by the difference to what
/// `who` held before.
pub proof fn lemma_sum_insert(book: Map<Identity, int>, who: Identity, amount: int)
    requires
        book.dom().finite(),
    ensures
        sum_of(book.insert(who, amount)) == sum_of(book) - held(book, who) + amount,
{
    let after = book.insert(who, amount);
    lemma_sum_split(after, who);
    assert(after.remove(who) =~= book.remove(who));
    if book.contains_key(who) {
        lemma_sum_split(book, who);
    } else {
        assert(book.remove(who) =~= book);
    }
}

/// The sum of a book is not negative.
pub proof fn lemma_sum_nonnegative(book: Map<Identity, int>)
    requires
        is_book(book),
    ensures
        sum_of(book) >= 0,
    decreases book.dom().len(),
{
    if !book.dom().is_empty() {
        let k = book.dom().choose();
        lemma_sum_nonnegative(book.remove(k));
    }
}

/// Nobody holds more than the sum of the book.
pub proof fn lemma_held_at_most_sum(book: Map<Identity, int>, who: Identity)
    requires
        is_book(book),
    ensures
        0 <= held(book, who) <= sum_of(book),
{
    lemma_sum_nonnegative(book);
    if book.contains_key(who) {
        lemma_sum_split(book, who);
        lemma_sum_nonnegative(book.remove(who));
    }
}

/// A list of holdings without a repeated owner or a negative amount stands
/// for a book, in which each owner holds the amount of its pair.
pub proof fn lemma_book_of_holdings(holdings: Seq<(Identity, i128)>)
    requires
        distinct_keys(holdings),
        forall|i: int| 0 <= i < holdings.len() ==> holdings[i].1 >= 0,
    ensures
        is_book(book_of(holdings)),
        book_of(holdings).dom() == table_of(holdings).dom(),
        forall|i: int|
            0 <= i < holdings.len() ==> held(book_of(holdings), #[trigger] holdings[i].0)
                == holdings[i].1,
{
    lemma_table_keys(holdings);
    assert(book_of(holdings).dom() =~= table_of(holdings).dom());
    assert forall|k: Identity| book_of(holdings).contains_key(k) implies book_of(holdings)[k]
        >= 0 by {
        let i = choose|i: int| 0 <= i < holdings.len() && #[trigger] holdings[i].0 == k;
        lemma_table_entry(holdings, i);
    }
    assert forall|i: int| 0 <= i < holdings.len() implies held(
        book_of(holdings),
        #[trigger] holdings[i].0,
    ) == holdings[i].1 by {
        lemma_table_entry(holdings, i);
    }
}

/// Appending the holding of a new owner writes it into the book and adds
/// its amount to the sum.
pub proof fn lemma_book_of_push(holdings: Seq<(Identity, i128)>, owner: Identity, amount: i128)
    requires
        distinct_keys(holdings),
        forall|i: int| 0 <= i < holdings.len() ==> holdings[i].0 != owner,
    ensures
        distinct_keys(holdings.push((owner, amount))),
        book_of(holdings.push((owner, amount))) == book_of(holdings).insert(owner, amount as int),
        sum_of(book_of(holdings.push((owner, amount)))) == sum_of(book_of(holdings)) + amount,
{
    lemma_table_absent(holdings, owner);
    lemma_table_push(holdings, owner, amount);
    lemma_table_keys(holdings);
    assert(book_of(holdings).dom() =~= table_of(holdings).dom());
    assert(book_of(holdings.push((owner, amount))) =~= book_of(holdings).insert(
        owner,
        amount as int,
    ));
    lemma_sum_insert(book_of(holdings), owner, amount as int);
}

/// Among holdings without a repeated owner or a negative amount, the first
/// `n` sum to no more than all of them.
pub proof fn lemma_sum_of_front(holdings: Seq<(Identity, i128)>, n: int)
    requires
        distinct_keys(holdings),
        forall|i: int| 0 <= i < holdings.len() ==> holdings[i].1 >= 0,
        0 <= n <= holdings.len(),
    ensures
        sum_of(book_of(holdings.take(n))) <= sum_of(book_of(holdings)),
    decreases holdings.len() - n,
{
    if n == holdings.len() {
        assert(holdings.take(n) =~= holdings);
    } else {
        lemma_sum_of_front(holdings, n + 1);
        assert(holdings.take(n + 1) =~= holdings.take(n).push(holdings[n]));
        lemma_book_of_push(holdings.take(n), holdings[n].0, holdings[n].1);
    }
}

/// The executable book: who holds how much, and the total.
#[derive(Debug)]
pub struct Ledger {
    entries: Vec<(Identity, i128)>,
    total: i128,
}

impl View for Ledger {
    type V = Map<Identity, int>;

    closed spec fn view(&self) -> Map<Identity, int> {
        book_of(self.entries@)
    }
}

impl Ledger {
    /// The total that the ledger keeps beside its entries.
    pub closed spec fn running_total(&self) -> int {
        self.total as int
    }

    /// The entries are a valid list of holdings.
    pub closed spec fn coherent(&self) -> bool {
        valid_holdings(self.entries@)
    }

    /// Well-formedness: the book is finite and holds no negative amount, and
    /// the running total is the sum of its amounts.
    pub open spec fn wf(&self) -> bool {
        &&& self.coherent()
        &&& is_book(self@)
        &&& self.running_total() == sum_of(self@)
        &&& 0 <= self.running_total() <= i128::MAX
    }

    /// The empty book.
    pub fn new() -> (ledger: Ledger)
        ensures
            ledger.wf(),
            ledger@ == Map::<Identity, int>::empty(),
    {
        let ledger = Ledger { entries: Vec::new(), total: 0 };
        assert(ledger@ =~= Map::<Identity, int>::empty());
        ledger
    }

    /// The book of a valid list of holdings, or nothing where an owner
    /// occurs twice, an amount is negative or the sum does not fit 128 bits.
    pub fn from_holdings(holdings: &Vec<(Identity, i128)>) -> (made: Option<Ledger>)
        ensures
            made is Some <==> valid_holdings(holdings@),
            made matches Some(ledger) ==> ledger.wf() && ledger@ == book_of(holdings@),
    {
        let mut ledger = Ledger { entries: Vec::new(), total: 0 };
        let mut i: usize = 0;
        proof {
            assert(holdings@.take(0) =~= ledger.entries@);
            assert(ledger@ =~= Map::<Identity, int>::empty());
        }
        while i < holdings.len()
            invariant
                i <= holdings.len(),
                ledger.wf(),
                ledger.entries@ == holdings@.take(i as int),
            decreases holdings.len() - i,
        {
            let owner = holdings[i].0;
            let amount = holdings[i].1;
            if amount < 0 {
                return None;
            }
            if ledger.position(owner).is_some() {
                return None;
            }
            proof {
                assert(holdings@.take(i + 1) =~= holdings@.take(i as int).push((owner, amount)));
                lemma_book_of_push(holdings@.take(i as int), owner, amount);
                if valid_holdings(holdings@) {
                    lemma_sum_of_front(holdings@, i + 1);
                }
            }
            let total = match ledger.total.checked_add(amount) {
                Some(total) => total,
                None => {
                    return None;
                },
            };
            ledger.total = total;
            ledger.entries.push((owner, amount));
            proof {
                lemma_book_of_holdings(ledger.entries@);
            }
            i += 1;
        }
        proof {
            assert(holdings@.take(i as int) =~= holdings@);
        }
        Some(ledger)
    }

    /// The book as a list of holdings, one for each owner.
    pub fn holdings(&self) -> (holdings: Vec<(Identity, i128)>)
        requires
            self.wf(),
        ensures
            valid_holdings(holdings@),
            book_of(holdings@) == self@,
    {
        let mut holdings: Vec<(Identity, i128)> = Vec::new();
        let mut i: usize = 0;
        while i < self.entries.len()
            invariant
                i <= self.entries.len(),
                holdings@ == self.entries@.take(i as int),
            decreases self.entries.len() - i,
        {
            holdings.push(self.entries[i]);
            proof {
                assert(self.entries@.take(i + 1) =~= self.entries@.take(i as int).push(
                    self.entries@[i as int],
                ));
            }
            i += 1;
        }
        proof {
            assert(self.entries@.take(i as int) =~= self.entries@);
        }
        holdings
    }

    /// The running total.
    pub fn total(&self) -> (total: i128)
        ensures
            total == self.running_total(),
    {
        self.total
    }

    /// `at` is where `who` stands among the entries, or nothing where `who`
    /// has no entry.
    spec fn finds(&self, who: Identity, at: Option<usize>) -> bool {
        match at {
            Some(i) => i < self.entries@.len() && self.entries@[i as int].0 == who,
            None => forall|j: int| 0 <= j < self.entries@.len() ==> self.entries@[j].0 != who,
        }
    }

    /// Where `who` stands among the entries, if anywhere.
    fn position(&self, who: Identity) -> (at: Option<usize>)
        ensures
            self.finds(who, at),
    {
        let mut i: usize = 0;
        while i < self.entries.len()
            invariant
                i <= self.entries.len(),
                forall|j: int| 0 <= j < i ==> self.entries@[j].0 != who,
            decreases self.entries.len() - i,
        {
            if self.entries[i].0 == who {
                return Some(i);
            }
            i += 1;
        }
        None
    }

    /// The amount in the entry at `at`, or zero without an entry.
    fn amount_at(&self, who: Identity, at: Option<usize>) -> (amount: i128)
        requires
            self.wf(),
            self.finds(who, at),
        ensures
            amount == held(self@, who),
    {
        proof {
            lemma_book_of_holdings(self.entries@);
        }
        match at {
            Some(i) => self.entries[i].1,
            None => {
                proof {
                    lemma_table_absent(self.entries@, who);
                }
                0
            },
        }
    }

    /// Writes `amount` as the holding of `who`: into the entry at `at`, or
    /// into a new entry.
    fn put_at(&mut self, who: Identity, at: Option<usize>, amount: i128)
        requires
            old(self).wf(),
            old(self).finds(who, at),
            amount >= 0,
            sum_of(old(self)@) - held(old(self)@, who) + amount <= i128::MAX,
        ensures
            final(self).wf(),
            final(self)@ == old(self)@.insert(who, amount as int),
            sum_of(final(self)@) == sum_of(old(self)@) - held(old(self)@, who) + amount,
    {
        proof {
            lemma_book_of_holdings(self.entries@);
            lemma_sum_insert(self@, who, amount as int);
            lemma_held_at_most_sum(self@, who);
        }
        match at {
            Some(i) => {
                proof {
                    lemma_table_update(self.entries@, i as int, amount);
                }
                let before = self.entries[i].1;
                self.total = self.total - before + amount;
                self.entries.set(i, (who, amount));
            },
            None => {
                proof {
                    lemma_table_absent(self.entries@, who);
                    lemma_table_push(self.entries@, who, amount);
                }
                self.total = self.total + amount;
                self.entries.push((who, amount));
            },
        }
        proof {
            assert(self@ =~= old(self)@.insert(who, amount as int));
            lemma_book_of_holdings(self.entries@);
        }
    }

    /// The amount that `who` holds.
    pub fn amount_of(&self, who: Identity) -> (amount: i128)
        requires
            self.wf(),
        ensures
            amount == held(self@, who),
    {
        let at = self.position(who);
        self.amount_at(who, at)
    }

    /// Adds `amount` to what `who` holds.
    pub(crate) fn credit(&mut self, who: Identity, amount: i128)
        requires
            old(self).wf(),
            amount >= 0,
            sum_of(old(self)@) + amount <= i128::MAX,
        ensures
            final(self).wf(),
            final(self)@ == old(self)@.insert(who, held(old(self)@, who) + amount),
            sum_of(final(self)@) == sum_of(old(self)@) + amount,
    {
        proof {
            lemma_held_at_most_sum(self@, who);
        }
        let at = self.position(who);
        let before = self.amount_at(who, at);
        self.put_at(who, at, before + amount);
    }

    /// Takes `amount` from what `who` holds, where `who` holds that much;
    /// says whether it did.
    pub(crate) fn debit(&mut self, who: Identity, amount: i128) -> (taken: bool)
        requires
            old(self).wf(),
            amount >= 0,
        ensures
            final(self).wf(),
            taken == (amount <= held(old(self)@, who)),
            taken ==> final(self)@ == old(self)@.insert(who, held(old(self)@, who) - amount),
            taken ==> sum_of(final(self)@) == sum_of(old(self)@) - amount,
            !taken ==> final(self)@ == old(self)@,
    {
        proof {
            lemma_held_at_most_sum(self@, who);
        }
        let at = self.position(who);
        let before = self.amount_at(who, at);
        if before < amount {
            return false;
        }
        self.put_at(who, at, before - amount);
        true
    }
}

} // verus!
