//! Verified business logic of an invoice-factoring platform.
//!
//! Three state machines keep the books of one deal: an [`escrow`] that pools
//! investor deposits against a funding target, an [`invoice_token`] that
//! records fractional ownership of the invoice, and a [`marketplace`] that
//! lists tokens for sale and meters what is sold. They know of each other
//! only by identity; nothing here moves funds or tokens between them.
//!
//! Every operation either commits in full or is refused and leaves the
//! state untouched. Each module holds a mathematical model of its state
//! with a spec function per operation, the executable state whose
//! operations are proved to take exactly the steps of the model, and the
//! laws that follow for every state: totals equal the sum of the book, an
//! escrow's status moves forward only, and the marketplace's index holds
//! exactly the open listings.
//!
//! The host that sequences the calls, stores the state and verifies
//! signatures is outside this crate. A call brings the [`identity`]
//! numbers of those it concerns and the credentials that the host has
//! verified; stored state comes back through the `restore` function of
//! each machine, which takes nothing on trust.

pub mod error;
pub mod escrow;
pub mod identity;
pub mod invoice_token;
pub mod ledger;
pub mod marketplace;
pub mod table;
