//! An English (ascending-price) auction for one NFT, with the previous
//! highest bid refunded on every outbid and an anti-sniping extension of the
//! deadline for bids that arrive near the end.

use vstd::prelude::*;
use crate::ledger::{Account, Transfer};

verus! {

/// Why an auction call is rejected (the contract panics with the message
/// in each variant's doc comment).
#[derive(Copy, Clone, Debug, PartialEq, Eq, Structural)]
pub enum AuctionError {
    /// "Already initialized"
    AlreadyInitialized,
    /// "duration_ledgers must be greater than zero"
    ZeroDuration,
    /// The auction has not been initialized (a stored value is missing).
    NotInitialized,
    /// "Auction ended"
    AuctionEnded,
    /// "Bid too low"
    BidTooLow,
    /// "Bid not higher than current highest"
    BidNotHigher,
    /// "Auction not ended yet"
    AuctionNotEnded,
    /// The reserve is met without any bid, so there is no winner to pay out to.
    NoHighestBidder,
    /// The deadline arithmetic overflows.
    Overflow,
}

impl AuctionError {
    /// The message the contract panics with.
    pub fn message(&self) -> (r: &'static str)
        ensures
            r@ == match self {
                AuctionError::AlreadyInitialized => "Already initialized"@,
                AuctionError::ZeroDuration => "duration_ledgers must be greater than zero"@,
                AuctionError::NotInitialized => "called `Option::unwrap()` on a `None` value"@,
                AuctionError::AuctionEnded => "Auction ended"@,
                AuctionError::BidTooLow => "Bid too low"@,
                AuctionError::BidNotHigher => "Bid not higher than current highest"@,
                AuctionError::AuctionNotEnded => "Auction not ended yet"@,
                AuctionError::NoHighestBidder => "called `Option::unwrap()` on a `None` value"@,
                AuctionError::Overflow => "attempt to add with overflow"@,
            },
    {
        match self {
            AuctionError::AlreadyInitialized => "Already initialized",
            AuctionError::ZeroDuration => "duration_ledgers must be greater than zero",
            AuctionError::NotInitialized => "called `Option::unwrap()` on a `None` value",
            AuctionError::AuctionEnded => "Auction ended",
            AuctionError::BidTooLow => "Bid too low",
            AuctionError::BidNotHigher => "Bid not higher than current highest",
            AuctionError::AuctionNotEnded => "Auction not ended yet",
            AuctionError::NoHighestBidder => "called `Option::unwrap()` on a `None` value",
            AuctionError::Overflow => "attempt to add with overflow",
        }
    }
}

/// Ledgers of the anti-snipe window and extension (5 minutes at ~5 s per ledger).
pub const ANTI_SNIPE_WINDOW_LEDGERS: u32 = 60;
pub const ANTI_SNIPE_EXTENSION_LEDGERS: u32 = 60;
/// Anti-snipe window and extension in seconds (5 minutes).
pub const ANTI_SNIPE_WINDOW_SECONDS: u64 = 300;
pub const ANTI_SNIPE_EXTENSION_SECONDS: u64 = 300;
pub const SECONDS_PER_LEDGER: u64 = 5;

#[derive(Copy, Clone, Debug, PartialEq, Eq, Structural)]
pub struct Bid {
    pub bidder: Account,
    pub amount: i128,
}

/// What `initialize` fixes for the lifetime of the auction.
#[derive(Copy, Clone, Debug, PartialEq, Eq, Structural)]
pub struct AuctionTerms {
    pub seller: Account,
    pub nft_contract: Account,
    pub token_id: i128,
    pub payment_token: Account,
    pub starting_price: i128,
    pub reserve_price: i128,
}

/// The contract's stored state.
pub struct EnglishAuction {
    pub terms: Option<AuctionTerms>,
    pub end_ledger: u32,
    pub end_timestamp: u64,
    pub highest_bidder: Option<Account>,
    pub highest_bid: i128,
    pub bids: Vec<Bid>,
}

pub open spec fn sat_sub_u32(a: u32, b: u32) -> u32 { if a >= b { (a - b) as u32 } else { 0 } }
pub open spec fn sat_sub_u64(a: u64, b: u64) -> u64 { if a >= b { (a - b) as u64 } else { 0 } }
pub open spec fn sat_add_u32(a: u32, b: u32) -> u32 { if a + b > u32::MAX { u32::MAX } else { (a + b) as u32 } }
pub open spec fn sat_add_u64(a: u64, b: u64) -> u64 { if a + b > u64::MAX { u64::MAX } else { (a + b) as u64 } }

/// Whether a bid at (`seq`, `now`) falls in the final window of an auction
/// ending at (`end_ledger`, `end_timestamp`).
pub open spec fn in_final_window(end_ledger: u32, end_timestamp: u64, seq: u32, now: u64) -> bool {
    sat_sub_u32(end_ledger, seq) <= ANTI_SNIPE_WINDOW_LEDGERS
        || sat_sub_u64(end_timestamp, now) <= ANTI_SNIPE_WINDOW_SECONDS
}

impl EnglishAuction {
    /// Payments escrowed: a highest bid exists exactly when it is positive,
    /// and it is the last bid recorded; each recorded bid beat the one
    /// before it.
    pub open spec fn wf(&self) -> bool {
        &&& self.highest_bid >= 0
        &&& (self.highest_bid > 0 <==> self.highest_bidder is Some)
        &&& self.highest_bidder matches Some(b) ==> self.bids@.len() > 0
            && self.bids@.last() == (Bid { bidder: b, amount: self.highest_bid })
        &&& self.highest_bidder is None ==> self.bids@.len() == 0
        &&& forall|i: int, j: int| 0 <= i < j < self.bids@.len() ==> self.bids@[i].amount < self.bids@[j].amount
        &&& self.terms is None ==> self.bids@.len() == 0 && self.highest_bid == 0
    }

    /// An auction that has not been initialized.
    pub fn new() -> (r: EnglishAuction)
        ensures
            r.wf(),
            r.terms is None,
            r.end_ledger == 0,
            r.end_timestamp == 0,
            r.highest_bidder is None,
            r.highest_bid == 0,
            r.bids@.len() == 0,
    {
        EnglishAuction {
            terms: None,
            end_ledger: 0,
            end_timestamp: 0,
            highest_bidder: None,
            highest_bid: 0,
            bids: Vec::new(),
        }
    }

    /// What `initialize` answers on this state: the checks it makes, in the
    /// order it makes them.
    pub open spec fn initialize_outcome(&self, seq: u32, now: u64, duration_ledgers: u32) -> Result<(), AuctionError> {
        if self.terms is Some {
            Err(AuctionError::AlreadyInitialized)
        } else if duration_ledgers == 0 {
            Err(AuctionError::ZeroDuration)
        } else if seq + duration_ledgers > u32::MAX
            || now + sat_mul_u64(duration_ledgers as u64, SECONDS_PER_LEDGER) > u64::MAX {
            Err(AuctionError::Overflow)
        } else {
            Ok(())
        }
    }

    /// What `bid` answers on this state.
    pub open spec fn bid_outcome(&self, seq: u32, amount: i128) -> Result<(), AuctionError> {
        match self.terms {
            None => Err(AuctionError::NotInitialized),
            Some(t) => if seq >= self.end_ledger {
                Err(AuctionError::AuctionEnded)
            } else if amount < t.starting_price {
                Err(AuctionError::BidTooLow)
            } else if amount <= self.highest_bid {
                Err(AuctionError::BidNotHigher)
            } else {
                Ok(())
            },
        }
    }

    /// What `end_auction` answers on this state.
    pub open spec fn end_outcome(&self, seq: u32) -> Result<(), AuctionError> {
        match self.terms {
            None => Err(AuctionError::NotInitialized),
            Some(t) => if seq < self.end_ledger {
                Err(AuctionError::AuctionNotEnded)
            } else if self.highest_bid >= t.reserve_price && self.highest_bidder is None {
                Err(AuctionError::NoHighestBidder)
            } else {
                Ok(())
            },
        }
    }

    /// Tells whether `initialize` may run, and if not, with which error the
    /// contract stops.
    pub fn check_initialize(&self, seq: u32, now: u64, duration_ledgers: u32) -> (r: Result<(), AuctionError>)
        ensures
            r == self.initialize_outcome(seq, now, duration_ledgers),
    {
        if self.terms.is_some() {
            return Err(AuctionError::AlreadyInitialized);
        }
        if duration_ledgers == 0 {
            return Err(AuctionError::ZeroDuration);
        }
        if seq.checked_add(duration_ledgers).is_none() {
            return Err(AuctionError::Overflow);
        }
        if now.checked_add(saturating_mul_u64(duration_ledgers as u64, SECONDS_PER_LEDGER)).is_none() {
            return Err(AuctionError::Overflow);
        }
        Ok(())
    }

    /// Tells whether `bid` may run, and if not, with which error the
    /// contract stops.
    pub fn check_bid(&self, seq: u32, amount: i128) -> (r: Result<(), AuctionError>)
        ensures
            r == self.bid_outcome(seq, amount),
    {
        match self.terms {
            None => Err(AuctionError::NotInitialized),
            Some(t) => if seq >= self.end_ledger {
                Err(AuctionError::AuctionEnded)
            } else if amount < t.starting_price {
                Err(AuctionError::BidTooLow)
            } else if amount <= self.highest_bid {
                Err(AuctionError::BidNotHigher)
            } else {
                Ok(())
            },
        }
    }

    /// Tells whether `end_auction` may run, and if not, with which error the
    /// contract stops.
    pub fn check_end_auction(&self, seq: u32) -> (r: Result<(), AuctionError>)
        ensures
            r == self.end_outcome(seq),
    {
        match self.terms {
            None => Err(AuctionError::NotInitialized),
            Some(t) => if seq < self.end_ledger {
                Err(AuctionError::AuctionNotEnded)
            } else if self.highest_bid >= t.reserve_price && self.highest_bidder.is_none() {
                Err(AuctionError::NoHighestBidder)
            } else {
                Ok(())
            },
        }
    }

    /// Sets the terms, runs the auction for `duration_ledgers` ledgers from
    /// `seq` (and 5 s per ledger from `now`), and escrows the NFT. The
    /// contract panics on an auction that is already initialized and on a
    /// zero duration (`check_initialize` names the case).
    pub fn initialize(
        &mut self,
        this: Account,
        seq: u32,
        now: u64,
        seller: Account,
        nft_contract: Account,
        token_id: i128,
        payment_token: Account,
        starting_price: i128,
        reserve_price: i128,
        duration_ledgers: u32,
        transfers: &mut Vec<Transfer>,
    )
        requires
            old(self).wf(),
            old(self).terms is None,
            duration_ledgers > 0,
            seq + duration_ledgers <= u32::MAX,
            now + sat_mul_u64(duration_ledgers as u64, SECONDS_PER_LEDGER) <= u64::MAX,
        ensures
            final(self).wf(),
            final(self).terms == Some(AuctionTerms {
                seller, nft_contract, token_id, payment_token, starting_price, reserve_price,
            }),
            final(self).end_ledger == seq + duration_ledgers,
            final(self).end_timestamp == now + sat_mul_u64(duration_ledgers as u64, SECONDS_PER_LEDGER),
            final(self).highest_bid == 0,
            final(self).highest_bidder is None,
            final(self).bids@.len() == 0,
            final(transfers)@ == old(transfers)@.push(
                Transfer { token: nft_contract, from: seller, to: this, amount: token_id }),
    {
        let end_ledger = seq + duration_ledgers;
        let end_timestamp = now + saturating_mul_u64(duration_ledgers as u64, SECONDS_PER_LEDGER);
        self.terms = Some(AuctionTerms { seller, nft_contract, token_id, payment_token, starting_price, reserve_price });
        self.end_ledger = end_ledger;
        self.end_timestamp = end_timestamp;
        self.highest_bid = 0;
        self.highest_bidder = None;
        self.bids = Vec::new();
        // Escrow the NFT in the auction contract for the duration of the sale.
        transfers.push(Transfer { token: nft_contract, from: seller, to: this, amount: token_id });
    }

    /// Places a bid: it must come before the deadline, reach the starting
    /// price and beat the highest bid (the contract panics otherwise;
    /// `check_bid` names the case). The new bid is escrowed, the previous
    /// highest bid is refunded at once, and a bid in the final window pushes
    /// the deadline out.
    pub fn bid(
        &mut self,
        this: Account,
        seq: u32,
        now: u64,
        bidder: Account,
        amount: i128,
        transfers: &mut Vec<Transfer>,
    )
        requires
            old(self).wf(),
            old(self).terms is Some,
            seq < old(self).end_ledger,
            amount >= old(self).terms.unwrap().starting_price,
            amount > old(self).highest_bid,
        ensures
            final(self).wf(),
            ({
                let t = old(self).terms.unwrap();
                let extend = in_final_window(old(self).end_ledger, old(self).end_timestamp, seq, now);
                &&& final(self).terms == old(self).terms
                &&& final(self).highest_bid == amount
                &&& final(self).highest_bidder == Some(bidder)
                &&& final(self).bids@ == old(self).bids@.push(Bid { bidder, amount })
                &&& final(self).end_ledger == if extend {
                    sat_add_u32(old(self).end_ledger, ANTI_SNIPE_EXTENSION_LEDGERS)
                } else {
                    old(self).end_ledger
                }
                &&& final(self).end_timestamp == if extend {
                    sat_add_u64(old(self).end_timestamp, ANTI_SNIPE_EXTENSION_SECONDS)
                } else {
                    old(self).end_timestamp
                }
                &&& final(transfers)@ == match old(self).highest_bidder {
                    Some(prev) => old(transfers)@
                        .push(Transfer { token: t.payment_token, from: bidder, to: this, amount })
                        .push(Transfer { token: t.payment_token, from: this, to: prev, amount: old(self).highest_bid }),
                    None => old(transfers)@
                        .push(Transfer { token: t.payment_token, from: bidder, to: this, amount }),
                }
            }),
    {
        let terms = self.terms.unwrap();
        let end_ledger = self.end_ledger;
        let highest_bid = self.highest_bid;
        // Pull the new bid into escrow.
        transfers.push(Transfer { token: terms.payment_token, from: bidder, to: this, amount });
        // Immediately refund the previous highest bidder.
        match self.highest_bidder {
            Some(prev) => {
                transfers.push(Transfer { token: terms.payment_token, from: this, to: prev, amount: highest_bid });
            },
            None => {},
        }
        self.highest_bidder = Some(bidder);
        self.highest_bid = amount;
        self.bids.push(Bid { bidder, amount });
        self.maybe_extend_deadline(seq, now, end_ledger);
    }

    /// If this bid arrives in the final 5 minutes (or the final 60 ledgers),
    /// push the deadline out by another 5 minutes / 60 ledgers.
    fn maybe_extend_deadline(&mut self, seq: u32, now: u64, end_ledger: u32)
        ensures
            final(self).terms == old(self).terms,
            final(self).highest_bid == old(self).highest_bid,
            final(self).highest_bidder == old(self).highest_bidder,
            final(self).bids@ == old(self).bids@,
            final(self).end_ledger == if in_final_window(end_ledger, old(self).end_timestamp, seq, now) {
                sat_add_u32(end_ledger, ANTI_SNIPE_EXTENSION_LEDGERS)
            } else {
                old(self).end_ledger
            },
            final(self).end_timestamp == if in_final_window(end_ledger, old(self).end_timestamp, seq, now) {
                sat_add_u64(old(self).end_timestamp, ANTI_SNIPE_EXTENSION_SECONDS)
            } else {
                old(self).end_timestamp
            },
    {
        let remaining_ledgers = end_ledger.saturating_sub(seq);
        let end_timestamp = self.end_timestamp;
        let remaining_seconds = end_timestamp.saturating_sub(now);
        if remaining_ledgers <= ANTI_SNIPE_WINDOW_LEDGERS || remaining_seconds <= ANTI_SNIPE_WINDOW_SECONDS {
            self.end_ledger = end_ledger.saturating_add(ANTI_SNIPE_EXTENSION_LEDGERS);
            self.end_timestamp = end_timestamp.saturating_add(ANTI_SNIPE_EXTENSION_SECONDS);
        }
    }

    /// Settles the auction once the deadline has passed (the contract panics
    /// before it; `check_end_auction` names the case): with the reserve met
    /// the NFT goes to the highest bidder and the payment to the seller;
    /// otherwise the highest bid (if any) is refunded and the NFT returns to
    /// the seller.
    pub fn end_auction(&self, this: Account, seq: u32, transfers: &mut Vec<Transfer>)
        requires
            self.wf(),
            self.terms is Some,
            seq >= self.end_ledger,
            !(self.highest_bid >= self.terms.unwrap().reserve_price && self.highest_bidder is None),
        ensures
            ({
                let t = self.terms.unwrap();
                final(transfers)@ == if self.highest_bid >= t.reserve_price {
                    old(transfers)@
                        .push(Transfer { token: t.nft_contract, from: this, to: self.highest_bidder.unwrap(), amount: t.token_id })
                        .push(Transfer { token: t.payment_token, from: this, to: t.seller, amount: self.highest_bid })
                } else if self.highest_bid > 0 {
                    old(transfers)@
                        .push(Transfer { token: t.payment_token, from: this, to: self.highest_bidder.unwrap(), amount: self.highest_bid })
                        .push(Transfer { token: t.nft_contract, from: this, to: t.seller, amount: t.token_id })
                } else {
                    old(transfers)@.push(Transfer { token: t.nft_contract, from: this, to: t.seller, amount: t.token_id })
                }
            }),
    {
        let terms = self.terms.unwrap();
        let highest_bid = self.highest_bid;
        if highest_bid >= terms.reserve_price {
            let highest_bidder = self.highest_bidder.unwrap();
            transfers.push(Transfer { token: terms.nft_contract, from: this, to: highest_bidder, amount: terms.token_id });
            transfers.push(Transfer { token: terms.payment_token, from: this, to: terms.seller, amount: highest_bid });
        } else {
            if highest_bid > 0 {
                let highest_bidder = self.highest_bidder.unwrap();
                transfers.push(Transfer { token: terms.payment_token, from: this, to: highest_bidder, amount: highest_bid });
            }
            transfers.push(Transfer { token: terms.nft_contract, from: this, to: terms.seller, amount: terms.token_id });
        }
    }

    pub fn get_seller(&self) -> (r: Result<Account, AuctionError>)
        ensures
            r == (match self.terms {
                Some(t) => Ok(t.seller),
                None => Err(AuctionError::NotInitialized),
            }),
    {
        match self.terms {
            Some(t) => Ok(t.seller),
            None => Err(AuctionError::NotInitialized),
        }
    }

    pub fn get_highest_bid(&self) -> (r: Result<i128, AuctionError>)
        ensures
            r == (if self.terms is Some { Ok(self.highest_bid) } else { Err(AuctionError::NotInitialized) }),
    {
        if self.terms.is_some() { Ok(self.highest_bid) } else { Err(AuctionError::NotInitialized) }
    }

    pub fn get_highest_bidder(&self) -> (r: Option<Account>)
        ensures
            r == self.highest_bidder,
    {
        self.highest_bidder
    }

    pub fn get_end_ledger(&self) -> (r: Result<u32, AuctionError>)
        ensures
            r == (if self.terms is Some { Ok(self.end_ledger) } else { Err(AuctionError::NotInitialized) }),
    {
        if self.terms.is_some() { Ok(self.end_ledger) } else { Err(AuctionError::NotInitialized) }
    }

    pub fn get_end_timestamp(&self) -> (r: Result<u64, AuctionError>)
        ensures
            r == (if self.terms is Some { Ok(self.end_timestamp) } else { Err(AuctionError::NotInitialized) }),
    {
        if self.terms.is_some() { Ok(self.end_timestamp) } else { Err(AuctionError::NotInitialized) }
    }
}

pub open spec fn sat_mul_u64(a: u64, b: u64) -> u64 { if a * b > u64::MAX { u64::MAX } else { (a * b) as u64 } }

/// `a * b`, clamped to `u64::MAX`.
pub fn saturating_mul_u64(a: u64, b: u64) -> (r: u64)
    ensures
        r == sat_mul_u64(a, b),
{
    match a.checked_mul(b) {
        Some(v) => v,
        None => u64::MAX,
    }
}

/// A bid never brings the deadline forward: a bid in the final window
/// pushes both the ledger and the time deadline out, any other bid leaves
/// them as they were.
pub proof fn law_deadline_never_earlier(end_ledger: u32, end_timestamp: u64, seq: u32, now: u64)
    ensures
        (if in_final_window(end_ledger, end_timestamp, seq, now) {
            sat_add_u32(end_ledger, ANTI_SNIPE_EXTENSION_LEDGERS)
        } else {
            end_ledger
        }) >= end_ledger,
        (if in_final_window(end_ledger, end_timestamp, seq, now) {
            sat_add_u64(end_timestamp, ANTI_SNIPE_EXTENSION_SECONDS)
        } else {
            end_timestamp
        }) >= end_timestamp,
{
}

} // verus!
