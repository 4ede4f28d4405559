use soroscope::english_auction::{AuctionError, EnglishAuction};
use soroscope::ledger::{Account, Transfer};

/// Token balances, moved by the transfers the contract orders.
struct Tokens {
    entries: Vec<(Account, Account, i128)>,
}

impl Tokens {
    fn balance(&self, token: &Account, who: &Account) -> i128 {
        self.entries.iter().find(|(t, w, _)| t == token && w == who).map(|(_, _, a)| *a).unwrap_or(0)
    }

    fn set(&mut self, token: &Account, who: &Account, amount: i128) {
        match self.entries.iter_mut().find(|(t, w, _)| t == token && w == who) {
            Some(e) => e.2 = amount,
            None => self.entries.push((*token, *who, amount)),
        }
    }

    fn mint(&mut self, token: &Account, to: &Account, amount: i128) {
        let b = self.balance(token, to);
        self.set(token, to, b + amount);
    }

    fn apply(&mut self, transfers: &[Transfer]) {
        for t in transfers {
            let from = self.balance(&t.token, &t.from);
            if from < t.amount {
                panic!("insufficient balance");
            }
            self.set(&t.token, &t.from, from - t.amount);
            let to = self.balance(&t.token, &t.to);
            self.set(&t.token, &t.to, to + t.amount);
        }
    }
}

fn fail<T>(e: AuctionError) -> T {
    panic!("{}", e.message())
}

struct AuctionFixture {
    auction: EnglishAuction,
    tokens: Tokens,
    sequence: u32,
    timestamp: u64,
    seller: Account,
    bidder1: Account,
    bidder2: Account,
    nft_id: Account,
    payment_id: Account,
    auction_id: Account,
}

fn account(n: u128) -> Account {
    Account { contract: false, key_hi: 0, key_lo: n }
}

fn contract(n: u128) -> Account {
    Account { contract: true, key_hi: 0, key_lo: n }
}

impl AuctionFixture {
    fn set_ledger(&mut self, sequence: u32, timestamp: u64) {
        self.sequence = sequence;
        self.timestamp = timestamp;
    }

    fn bid(&mut self, bidder: &Account, amount: i128) {
        let mut ts: Vec<Transfer> = Vec::new();
        self.auction.check_bid(self.sequence, amount).unwrap_or_else(|e| fail(e));
        self.auction.bid(self.auction_id, self.sequence, self.timestamp, *bidder, amount, &mut ts);
        self.tokens.apply(&ts);
    }

    fn end_auction(&mut self) {
        let mut ts: Vec<Transfer> = Vec::new();
        self.auction.check_end_auction(self.sequence).unwrap_or_else(|e| fail(e));
        self.auction.end_auction(self.auction_id, self.sequence, &mut ts);
        self.tokens.apply(&ts);
    }

    fn get_highest_bid(&self) -> i128 {
        self.auction.get_highest_bid().unwrap_or_else(|e| fail(e))
    }

    fn get_highest_bidder(&self) -> Option<Account> {
        self.auction.get_highest_bidder()
    }

    fn get_end_ledger(&self) -> u32 {
        self.auction.get_end_ledger().unwrap_or_else(|e| fail(e))
    }

    fn get_end_timestamp(&self) -> u64 {
        self.auction.get_end_timestamp().unwrap_or_else(|e| fail(e))
    }

    fn nft_balance(&self, who: &Account) -> i128 {
        self.tokens.balance(&self.nft_id, who)
    }

    fn payment_balance(&self, who: &Account) -> i128 {
        self.tokens.balance(&self.payment_id, who)
    }
}

fn setup(duration_ledgers: u32) -> AuctionFixture {
    let seller = account(1);
    let bidder1 = account(2);
    let bidder2 = account(3);
    let nft_id = contract(4);
    let payment_id = contract(5);
    let auction_id = contract(6);
    let mut tokens = Tokens { entries: Vec::new() };
    tokens.mint(&nft_id, &seller, 1);
    tokens.mint(&payment_id, &bidder1, 1_000);
    tokens.mint(&payment_id, &bidder2, 1_000);

    let mut auction = EnglishAuction::new();
    let mut ts: Vec<Transfer> = Vec::new();
    auction.check_initialize(0, 0, duration_ledgers).unwrap_or_else(|e| fail(e));
    auction.initialize(auction_id, 0, 0, seller, nft_id, 1, payment_id, 100, 200, duration_ledgers, &mut ts);
    tokens.apply(&ts);

    AuctionFixture { auction, tokens, sequence: 0, timestamp: 0, seller, bidder1, bidder2, nft_id, payment_id, auction_id }
}

#[test]
fn test_english_auction() {
    // 200 ledgers ≈ 1000s, well outside the 5-minute anti-snipe window.
    let mut fx = setup(200);
    let (b1, b2) = (fx.bidder1, fx.bidder2);

    fx.bid(&b1, 150);
    assert_eq!(fx.get_highest_bid(), 150);
    assert_eq!(fx.get_highest_bidder(), Some(b1));

    fx.bid(&b2, 220);
    assert_eq!(fx.get_highest_bid(), 220);
    assert_eq!(fx.get_highest_bidder(), Some(b2));

    fx.set_ledger(200, 10_000);
    fx.end_auction();

    assert_eq!(fx.payment_balance(&fx.seller), 220);
    assert_eq!(fx.nft_balance(&b2), 1);
}

#[test]
fn test_outbid_refunds_previous_bidder_immediately() {
    let mut fx = setup(200);
    let (b1, b2, a) = (fx.bidder1, fx.bidder2, fx.auction_id);

    fx.bid(&b1, 150);
    assert_eq!(fx.payment_balance(&b1), 850);
    assert_eq!(fx.payment_balance(&a), 150);

    fx.bid(&b2, 220);
    // bidder1 is refunded the moment they are outbid.
    assert_eq!(fx.payment_balance(&b1), 1_000);
    assert_eq!(fx.payment_balance(&b2), 780);
    assert_eq!(fx.payment_balance(&a), 220);
    assert_eq!(fx.get_highest_bidder(), Some(b2));
    assert_eq!(fx.get_highest_bid(), 220);
}

#[test]
fn test_deadline_extends_when_bid_in_final_sixty_ledgers() {
    let mut fx = setup(80);
    let b1 = fx.bidder1;
    let first_end = fx.get_end_ledger();
    assert_eq!(first_end, 80);

    // Remaining ledgers = 20 ≤ 60 → anti-snipe extension of 60 ledgers.
    fx.set_ledger(60, 300);
    fx.bid(&b1, 150);

    assert_eq!(fx.get_end_ledger(), first_end + 60);
    assert_eq!(fx.get_highest_bid(), 150);
}

#[test]
fn test_deadline_extends_when_bid_in_final_five_minutes() {
    let mut fx = setup(80);
    let b1 = fx.bidder1;
    // duration 80 ledgers → end_timestamp = 400s. At t=150, 250s remain
    // (≤ 300s) while 80 ledgers remain — the time-based rule alone applies.
    let first_end_ts = fx.get_end_timestamp();
    let first_end_ledger = fx.get_end_ledger();
    assert_eq!(first_end_ts, 400);

    fx.set_ledger(0, 150);
    fx.bid(&b1, 150);

    assert_eq!(fx.get_end_timestamp(), first_end_ts + 300);
    assert_eq!(fx.get_end_ledger(), first_end_ledger + 60);
}

#[test]
fn test_early_bid_does_not_extend_deadline() {
    let mut fx = setup(200);
    let b1 = fx.bidder1;
    let first_end = fx.get_end_ledger();
    let first_ts = fx.get_end_timestamp();

    fx.bid(&b1, 150);

    assert_eq!(fx.get_end_ledger(), first_end);
    assert_eq!(fx.get_end_timestamp(), first_ts);
}

#[test]
#[should_panic(expected = "Auction ended")]
fn test_bid_after_deadline_is_rejected() {
    let mut fx = setup(200);
    let b1 = fx.bidder1;
    fx.set_ledger(200, 10_000);
    fx.bid(&b1, 150);
}

#[test]
#[should_panic(expected = "Bid not higher than current highest")]
fn test_bid_must_exceed_current_highest() {
    let mut fx = setup(200);
    let (b1, b2) = (fx.bidder1, fx.bidder2);
    fx.bid(&b1, 150);
    fx.bid(&b2, 150);
}

#[test]
fn test_nft_is_escrowed_on_initialize() {
    let fx = setup(200);
    assert_eq!(fx.nft_balance(&fx.seller), 0);
    assert_eq!(fx.nft_balance(&fx.auction_id), 1);
}

// ── Further checks ───────────────────────────────────────────────────────────

#[test]
fn test_reserve_not_met_returns_nft_and_refunds() {
    let mut fx = setup(200);
    let b1 = fx.bidder1;
    fx.bid(&b1, 150); // reserve is 200
    fx.set_ledger(200, 10_000);
    fx.end_auction();
    assert_eq!(fx.payment_balance(&b1), 1_000);
    assert_eq!(fx.nft_balance(&fx.seller), 1);
}

#[test]
fn test_auction_error_cases() {
    let mut fx = setup(200);
    // Bids below the starting price are refused.
    assert_eq!(fx.auction.check_bid(0, 99), Err(AuctionError::BidTooLow));
    // A bid not above the highest is refused, and one above it passes.
    let b1 = fx.bidder1;
    fx.bid(&b1, 150);
    assert_eq!(fx.auction.check_bid(0, 150), Err(AuctionError::BidNotHigher));
    assert_eq!(fx.auction.check_bid(0, 151), Ok(()));
    // Bids at or after the end ledger are refused.
    assert_eq!(fx.auction.check_bid(200, 500), Err(AuctionError::AuctionEnded));
    // Ending early is refused; at the end ledger it passes.
    assert_eq!(fx.auction.check_end_auction(10), Err(AuctionError::AuctionNotEnded));
    assert_eq!(fx.auction.check_end_auction(200), Ok(()));
    // Initializing twice is refused.
    assert_eq!(fx.auction.check_initialize(0, 0, 10), Err(AuctionError::AlreadyInitialized));
    // A zero duration is refused, a deadline past u32::MAX too.
    let fresh = EnglishAuction::new();
    assert_eq!(fresh.check_initialize(0, 0, 0), Err(AuctionError::ZeroDuration));
    assert_eq!(fresh.check_initialize(u32::MAX, 0, 1), Err(AuctionError::Overflow));
    assert_eq!(fresh.check_initialize(0, 0, 10), Ok(()));
    assert_eq!(fresh.get_highest_bid(), Err(AuctionError::NotInitialized));
    assert_eq!(fresh.check_bid(0, 150), Err(AuctionError::NotInitialized));
    assert_eq!(fresh.check_end_auction(0), Err(AuctionError::NotInitialized));
}
