//! A factory that deploys English and Dutch auction contracts for a fixed
//! deployment fee and keeps an index of what it deployed.
//!
//! Deploying and initializing the auction contract is the host's work; the
//! factory's own part is charging the fee and registering the new auction
//! under the address the deployer gave it.

use vstd::prelude::*;
use soroban_sdk::xdr::{FromXdr, ToXdr};
use crate::ledger::{Account, Transfer};
use crate::private_transfer::{sha256_32, sha256_digest};
use crate::admin_guard::{AdminGuard, GuardError, dedup, replace, without};

verus! {

#[derive(Copy, Clone, Debug, PartialEq, Eq, Structural)]
pub enum AuctionType {
    English,
    Dutch,
}

#[derive(Copy, Clone, Debug, PartialEq, Eq, Structural)]
pub enum FactoryError {
    InvalidFee,
    FeeNotConfigured,
    Unauthorized,
    /// The contract traps here (the auction counter overflows); the host
    /// aborts the call.
    Overflow,
}

impl FactoryError {
    /// The contract error code (0 for a trap, which has none).
    pub fn code(&self) -> (r: u32)
        ensures
            r == match self {
                FactoryError::InvalidFee => 1u32,
                FactoryError::FeeNotConfigured => 2,
                FactoryError::Unauthorized => 3,
                FactoryError::Overflow => 0,
            },
    {
        match self {
            FactoryError::InvalidFee => 1,
            FactoryError::FeeNotConfigured => 2,
            FactoryError::Unauthorized => 3,
            FactoryError::Overflow => 0,
        }
    }
}

/// The fee charged for every deployment: `amount` of `token` to `recipient`.
#[derive(Copy, Clone, Debug, PartialEq, Eq, Structural)]
pub struct DeploymentFee {
    pub token: Account,
    pub recipient: Account,
    pub amount: i128,
}

/// A deployed auction, in deployment order.
#[derive(Copy, Clone, Debug, PartialEq, Eq, Structural)]
pub struct AuctionRecord {
    pub address: Account,
    pub auction_type: AuctionType,
}

/// The largest page `get_auctions` returns.
pub const MAX_PAGE_SIZE: u32 = 100;

/// The parameters the factory initializes a new auction with, in the order
/// of the auction's `initialize`: for an English auction the starting and
/// reserve prices, for a Dutch one the start and end prices.
#[derive(Copy, Clone, Debug, PartialEq, Eq, Structural)]
pub struct AuctionInit {
    pub seller: Account,
    pub nft_contract: Account,
    pub token_id: i128,
    pub payment_token: Account,
    pub first_price: i128,
    pub second_price: i128,
    pub duration_ledgers: u32,
}

/// A deployed auction: its address, the salt it was deployed with and the
/// parameters it is initialized with.
#[derive(Copy, Clone, Debug)]
pub struct AuctionDeployment {
    pub address: Account,
    pub salt: [u8; 32],
    pub init: AuctionInit,
}

/// The 16 big-endian bytes of `x`.
pub open spec fn key_bytes(x: u128) -> Seq<u8> {
    Seq::new(16, |j: int| ((x >> ((8 * (15 - j)) as u32)) & 0xffu128) as u8)
}

/// An account as a ledger address in XDR (`ScVal::Address`): the value and
/// address tags, for an account the key type, then the 32-byte key.
pub open spec fn account_xdr(a: Account) -> Seq<u8> {
    let head: Seq<u8> = if a.contract {
        seq![0u8, 0u8, 0u8, 18u8, 0u8, 0u8, 0u8, 1u8]
    } else {
        seq![0u8, 0u8, 0u8, 18u8, 0u8, 0u8, 0u8, 0u8, 0u8, 0u8, 0u8, 0u8]
    };
    head + key_bytes(a.key_hi) + key_bytes(a.key_lo)
}

fn push_key(out: &mut Vec<u8>, x: u128)
    ensures
        final(out)@ == old(out)@ + key_bytes(x),
{
    let ghost start = out@;
    let mut j: u32 = 0;
    while j < 16
        invariant
            j <= 16,
            out@ == start + key_bytes(x).take(j as int),
        decreases 16 - j,
    {
        out.push(((x >> (8 * (15 - j))) & 0xffu128) as u8);
        proof {
            assert(key_bytes(x).take(j as int + 1) =~= key_bytes(x).take(j as int).push(key_bytes(x)[j as int]));
        }
        j += 1;
    }
    assert(key_bytes(x).take(16) =~= key_bytes(x));
}

/// `account` as a ledger address in XDR.
pub fn address_xdr(account: Account) -> (r: Vec<u8>)
    ensures
        r@ == account_xdr(account),
{
    let mut out: Vec<u8> = Vec::new();
    out.push(0u8);
    out.push(0u8);
    out.push(0u8);
    out.push(18u8);
    out.push(0u8);
    out.push(0u8);
    out.push(0u8);
    if account.contract {
        out.push(1u8);
    } else {
        out.push(0u8);
        out.push(0u8);
        out.push(0u8);
        out.push(0u8);
        out.push(0u8);
    }
    let ghost head = out@;
    push_key(&mut out, account.key_hi);
    push_key(&mut out, account.key_lo);
    proof {
        if account.contract {
            assert(head =~= seq![0u8, 0u8, 0u8, 18u8, 0u8, 0u8, 0u8, 1u8]);
        } else {
            assert(head =~= seq![0u8, 0u8, 0u8, 18u8, 0u8, 0u8, 0u8, 0u8, 0u8, 0u8, 0u8, 0u8]);
        }
    }
    out
}

/// The XDR of the tuple `(seller, nft, token_id, kind)` that a deployment
/// salt hashes, as the host serializes it.
pub uninterp spec fn salt_payload(seller: Account, nft: Account, token_id: i128, kind: AuctionType) -> Seq<u8>;

/// `soroban_sdk::xdr::ToXdr::to_xdr` on the tuple (seller address, NFT
/// address, token id, auction type), the addresses read back from their XDR
/// by `FromXdr::from_xdr` and the type as the one-symbol vector a contract
/// type's unit variant is: the host's serialization, which depends on those
/// values alone (named `salt_payload`).
#[verifier::external_body]
fn salt_payload_xdr(
    env: &soroban_sdk::Env,
    seller: Account,
    seller_xdr: &Vec<u8>,
    nft: Account,
    nft_xdr: &Vec<u8>,
    token_id: i128,
    kind: AuctionType,
) -> (r: Vec<u8>)
    requires
        seller_xdr@ == account_xdr(seller),
        nft_xdr@ == account_xdr(nft),
    ensures
        r@ == salt_payload(seller, nft, token_id, kind),
{
    let s = soroban_sdk::Address::from_xdr(env, &soroban_sdk::Bytes::from_slice(env, seller_xdr.as_slice())).unwrap();
    let n = soroban_sdk::Address::from_xdr(env, &soroban_sdk::Bytes::from_slice(env, nft_xdr.as_slice())).unwrap();
    let name = match kind { AuctionType::English => "English", AuctionType::Dutch => "Dutch" };
    let k = soroban_sdk::Vec::from_array(env, [soroban_sdk::Symbol::new(env, name)]);
    let b = (s, n, token_id, k).to_xdr(env);
    let mut out = vec![0u8; b.len() as usize];
    b.copy_into_slice(&mut out);
    out
}

/// The salt the factory deploys an auction with: the SHA-256 digest of the
/// XDR of `(seller, nft, token_id, kind)`.
pub fn deployment_salt(env: &soroban_sdk::Env, seller: Account, nft: Account, token_id: i128, kind: AuctionType) -> (r: [u8; 32])
    ensures
        r@ == sha256_digest(salt_payload(seller, nft, token_id, kind)),
{
    let s = address_xdr(seller);
    let n = address_xdr(nft);
    let payload = salt_payload_xdr(env, seller, &s, nft, &n, token_id, kind);
    sha256_32(env, &payload)
}

/// The factory's stored state.
pub struct AuctionFactory {
    /// The admin committee that approves fee changes.
    pub guard: AdminGuard,
    pub fee: Option<DeploymentFee>,
    /// Deployed auctions; an auction's index is its position.
    pub auctions: Vec<AuctionRecord>,
}

/// The type registered last for `address`.
pub open spec fn type_of(records: Seq<AuctionRecord>, address: Account) -> Option<AuctionType>
    decreases records.len(),
{
    if records.len() == 0 {
        None
    } else if records.last().address == address {
        Some(records.last().auction_type)
    } else {
        type_of(records.drop_last(), address)
    }
}

/// The indexes a page from `start` of at most `limit` (capped at
/// `MAX_PAGE_SIZE`) entries covers among `count`: `[start, end)`.
pub open spec fn page_end(start: u32, limit: u32, count: u32) -> int {
    let capped = if limit <= MAX_PAGE_SIZE { limit as int } else { MAX_PAGE_SIZE as int };
    let sum = if start + capped > u32::MAX { u32::MAX as int } else { start + capped };
    if sum <= count { sum } else { count as int }
}

impl AuctionFactory {
    pub open spec fn wf(&self) -> bool {
        &&& self.guard.wf()
        &&& self.auctions@.len() <= u32::MAX
        &&& self.fee matches Some(f) ==> f.amount > 0
    }

    /// A factory with no fee configured and no auctions.
    pub fn new() -> (r: AuctionFactory)
        ensures
            r.wf(),
            !r.guard.initialized,
            r.fee is None,
            r.auctions@.len() == 0,
    {
        AuctionFactory { guard: AdminGuard::new(), fee: None, auctions: Vec::new() }
    }

    /// Sets up the admin committee: `admins`, of whom `threshold` must
    /// approve a privileged operation.
    pub fn initialize(&mut self, admins: Vec<Account>, threshold: u32) -> (r: Result<(), GuardError>)
        requires
            old(self).wf(),
        ensures
            final(self).wf(),
            r == (if old(self).guard.initialized {
                Err(GuardError::AlreadyInitialized)
            } else if threshold == 0 || threshold > admins@.len() {
                Err(GuardError::InvalidThreshold)
            } else {
                Ok(())
            }),
            r is Ok ==> final(self).guard.initialized && final(self).guard.admins@ == admins@
                && final(self).guard.threshold == threshold,
            r is Err ==> final(self).guard == old(self).guard,
            final(self).fee == old(self).fee,
            final(self).auctions@ == old(self).auctions@,
    {
        self.guard.initialize(admins, threshold)
    }

    /// Replaces the admin `old_admin` by `new_admin` (each admin kept once),
    /// approved by `threshold` distinct admins among `approvers`.
    pub fn rotate_admin(
        &mut self,
        approvers: &Vec<Account>,
        old_admin: Account,
        new_admin: Account,
    ) -> (r: Result<(), GuardError>)
        requires
            old(self).wf(),
        ensures
            final(self).wf(),
            r == (match old(self).guard.multi_sig(approvers@) {
                Err(e) => Err(e),
                Ok(()) => if !old(self).guard.admins@.contains(old_admin) {
                    Err(GuardError::AdminNotFound)
                } else if dedup(replace(old(self).guard.admins@, old_admin, new_admin)).len()
                    < old(self).guard.threshold {
                    Err(GuardError::InvalidThreshold)
                } else {
                    Ok(())
                },
            }),
            r is Ok ==> final(self).guard.admins@ == dedup(replace(old(self).guard.admins@, old_admin, new_admin)),
            final(self).guard.initialized == old(self).guard.initialized,
            final(self).guard.threshold == old(self).guard.threshold,
            r is Err ==> final(self).guard == old(self).guard,
            final(self).fee == old(self).fee,
            final(self).auctions@ == old(self).auctions@,
    {
        self.guard.rotate_admin(approvers, old_admin, new_admin)
    }

    /// Adds `new_admin` (once), approved by `threshold` distinct admins.
    pub fn add_admin(&mut self, approvers: &Vec<Account>, new_admin: Account) -> (r: Result<(), GuardError>)
        requires
            old(self).wf(),
        ensures
            final(self).wf(),
            r == old(self).guard.multi_sig(approvers@),
            r is Ok ==> final(self).guard.admins@ == (if old(self).guard.admins@.contains(new_admin) {
                old(self).guard.admins@
            } else {
                old(self).guard.admins@.push(new_admin)
            }),
            final(self).guard.initialized == old(self).guard.initialized,
            final(self).guard.threshold == old(self).guard.threshold,
            r is Err ==> final(self).guard == old(self).guard,
            final(self).fee == old(self).fee,
            final(self).auctions@ == old(self).auctions@,
    {
        self.guard.add_admin(approvers, new_admin)
    }

    /// Removes `admin`, approved by `threshold` distinct admins; refused
    /// while there are no more admins than the threshold.
    pub fn remove_admin(&mut self, approvers: &Vec<Account>, admin: Account) -> (r: Result<(), GuardError>)
        requires
            old(self).wf(),
        ensures
            final(self).wf(),
            r == (match old(self).guard.multi_sig(approvers@) {
                Err(e) => Err(e),
                Ok(()) => if old(self).guard.admins@.len() <= old(self).guard.threshold {
                    Err(GuardError::InvalidThreshold)
                } else if !old(self).guard.admins@.contains(admin) {
                    Err(GuardError::AdminNotFound)
                } else {
                    Ok(())
                },
            }),
            r is Ok ==> final(self).guard.admins@ == without(old(self).guard.admins@, admin),
            final(self).guard.initialized == old(self).guard.initialized,
            final(self).guard.threshold == old(self).guard.threshold,
            r is Err ==> final(self).guard == old(self).guard,
            final(self).fee == old(self).fee,
            final(self).auctions@ == old(self).auctions@,
    {
        self.guard.remove_admin(approvers, admin)
    }

    /// The current admins (none before setup).
    pub fn get_admins(&self) -> (r: Vec<Account>)
        ensures
            r@ == self.guard.admins@,
    {
        self.guard.get_admins()
    }

    /// The number of approvals required (0 before setup).
    pub fn get_threshold(&self) -> (r: u32)
        ensures
            r == self.guard.threshold,
    {
        self.guard.get_threshold()
    }

    pub fn is_admin(&self, addr: Account) -> (r: bool)
        ensures
            r == self.guard.admins@.contains(addr),
    {
        self.guard.is_admin(addr)
    }

    /// Sets the fee charged per deployment, approved by `threshold` distinct
    /// admins among `approvers`.
    pub fn configure_deployment_fee(
        &mut self,
        approvers: &Vec<Account>,
        token: Account,
        recipient: Account,
        amount: i128,
    ) -> (r: Result<(), FactoryError>)
        requires
            old(self).wf(),
        ensures
            final(self).wf(),
            r == (if amount <= 0 {
                Err(FactoryError::InvalidFee)
            } else if old(self).guard.multi_sig(approvers@) is Err {
                Err(FactoryError::Unauthorized)
            } else {
                Ok(())
            }),
            r is Ok ==> final(self).fee == Some(DeploymentFee { token, recipient, amount }),
            final(self).guard == old(self).guard,
            final(self).auctions@ == old(self).auctions@,
            r is Err ==> final(self).fee == old(self).fee,
    {
        if amount <= 0 {
            return Err(FactoryError::InvalidFee);
        }
        match self.guard.check_multi_sig(approvers) {
            Ok(()) => {},
            Err(_) => return Err(FactoryError::Unauthorized),
        }
        self.fee = Some(DeploymentFee { token, recipient, amount });
        Ok(())
    }

    pub fn get_deployment_fee(&self) -> (r: Option<DeploymentFee>)
        ensures
            r == self.fee,
    {
        self.fee
    }

    /// Charges the deployment fee to `seller`.
    pub fn collect_deployment_fee(&self, seller: Account, transfers: &mut Vec<Transfer>) -> (r: Result<(), FactoryError>)
        ensures
            r == (if self.fee is None { Err(FactoryError::FeeNotConfigured) } else { Ok(()) }),
            final(transfers)@ == match self.fee {
                Some(f) => old(transfers)@.push(Transfer { token: f.token, from: seller, to: f.recipient, amount: f.amount }),
                None => old(transfers)@,
            },
    {
        match self.fee {
            Some(f) => {
                transfers.push(Transfer { token: f.token, from: seller, to: f.recipient, amount: f.amount });
                Ok(())
            },
            None => Err(FactoryError::FeeNotConfigured),
        }
    }

    /// Appends an auction to the index.
    pub fn register_auction(&mut self, address: Account, auction_type: AuctionType)
        requires
            old(self).wf(),
            old(self).auctions@.len() < u32::MAX,
        ensures
            final(self).wf(),
            final(self).auctions@ == old(self).auctions@.push(AuctionRecord { address, auction_type }),
            final(self).fee == old(self).fee,
            final(self).guard == old(self).guard,
    {
        self.auctions.push(AuctionRecord { address, auction_type });
    }

    /// Charges `seller` the deployment fee, derives the deployment salt and
    /// the parameters to initialize the new auction with, and registers the
    /// auction the deployer created at `deployed` (with that salt) as being
    /// of type `kind`.
    fn create_auction(
        &mut self,
        env: &soroban_sdk::Env,
        init: AuctionInit,
        kind: AuctionType,
        deployed: Account,
        transfers: &mut Vec<Transfer>,
    ) -> (r: Result<AuctionDeployment, FactoryError>)
        requires
            old(self).wf(),
        ensures
            final(self).wf(),
            r is Err <==> old(self).fee is None || old(self).auctions@.len() >= u32::MAX,
            r matches Err(e) ==> e == (if old(self).fee is None { FactoryError::FeeNotConfigured } else { FactoryError::Overflow }),
            r matches Ok(d) ==> {
                let f = old(self).fee.unwrap();
                &&& d.address == deployed
                &&& d.init == init
                &&& d.salt@ == sha256_digest(salt_payload(init.seller, init.nft_contract, init.token_id, kind))
                &&& final(self).auctions@ == old(self).auctions@.push(AuctionRecord { address: deployed, auction_type: kind })
                &&& final(self).fee == old(self).fee
                &&& final(self).guard == old(self).guard
                &&& final(transfers)@ == old(transfers)@.push(
                    Transfer { token: f.token, from: init.seller, to: f.recipient, amount: f.amount })
            },
            r is Err ==> *final(self) == *old(self) && final(transfers)@ == old(transfers)@,
    {
        if self.fee.is_none() {
            return Err(FactoryError::FeeNotConfigured);
        }
        if self.auctions.len() >= u32::MAX as usize {
            return Err(FactoryError::Overflow);
        }
        match self.collect_deployment_fee(init.seller, transfers) {
            Ok(()) => {},
            Err(e) => return Err(e),
        }
        let salt = deployment_salt(env, init.seller, init.nft_contract, init.token_id, kind);
        self.register_auction(deployed, kind);
        Ok(AuctionDeployment { address: deployed, salt, init })
    }

    /// Charges `seller` the deployment fee and registers the English auction
    /// the deployer created at `deployed`; returns its address, the salt it
    /// is deployed with and the parameters it is initialized with.
    pub fn create_english_auction(
        &mut self,
        env: &soroban_sdk::Env,
        seller: Account,
        nft_contract: Account,
        token_id: i128,
        payment_token: Account,
        starting_price: i128,
        reserve_price: i128,
        duration_ledgers: u32,
        deployed: Account,
        transfers: &mut Vec<Transfer>,
    ) -> (r: Result<AuctionDeployment, FactoryError>)
        requires
            old(self).wf(),
        ensures
            final(self).wf(),
            r is Err <==> old(self).fee is None || old(self).auctions@.len() >= u32::MAX,
            r matches Err(e) ==> e == (if old(self).fee is None { FactoryError::FeeNotConfigured } else { FactoryError::Overflow }),
            r matches Ok(d) ==> {
                let f = old(self).fee.unwrap();
                &&& d.address == deployed
                &&& d.init == (AuctionInit {
                    seller, nft_contract, token_id, payment_token,
                    first_price: starting_price, second_price: reserve_price, duration_ledgers,
                })
                &&& d.salt@ == sha256_digest(salt_payload(seller, nft_contract, token_id, AuctionType::English))
                &&& final(self).auctions@ == old(self).auctions@.push(
                    AuctionRecord { address: deployed, auction_type: AuctionType::English })
                &&& final(self).fee == old(self).fee
                &&& final(self).guard == old(self).guard
                &&& final(transfers)@ == old(transfers)@.push(
                    Transfer { token: f.token, from: seller, to: f.recipient, amount: f.amount })
            },
            r is Err ==> *final(self) == *old(self) && final(transfers)@ == old(transfers)@,
    {
        let init = AuctionInit {
            seller, nft_contract, token_id, payment_token,
            first_price: starting_price, second_price: reserve_price, duration_ledgers,
        };
        self.create_auction(env, init, AuctionType::English, deployed, transfers)
    }

    /// Charges `seller` the deployment fee and registers the Dutch auction
    /// the deployer created at `deployed`; returns its address, the salt it
    /// is deployed with and the parameters it is initialized with.
    pub fn create_dutch_auction(
        &mut self,
        env: &soroban_sdk::Env,
        seller: Account,
        nft_contract: Account,
        token_id: i128,
        payment_token: Account,
        start_price: i128,
        end_price: i128,
        duration_ledgers: u32,
        deployed: Account,
        transfers: &mut Vec<Transfer>,
    ) -> (r: Result<AuctionDeployment, FactoryError>)
        requires
            old(self).wf(),
        ensures
            final(self).wf(),
            r is Err <==> old(self).fee is None || old(self).auctions@.len() >= u32::MAX,
            r matches Err(e) ==> e == (if old(self).fee is None { FactoryError::FeeNotConfigured } else { FactoryError::Overflow }),
            r matches Ok(d) ==> {
                let f = old(self).fee.unwrap();
                &&& d.address == deployed
                &&& d.init == (AuctionInit {
                    seller, nft_contract, token_id, payment_token,
                    first_price: start_price, second_price: end_price, duration_ledgers,
                })
                &&& d.salt@ == sha256_digest(salt_payload(seller, nft_contract, token_id, AuctionType::Dutch))
                &&& final(self).auctions@ == old(self).auctions@.push(
                    AuctionRecord { address: deployed, auction_type: AuctionType::Dutch })
                &&& final(self).fee == old(self).fee
                &&& final(self).guard == old(self).guard
                &&& final(transfers)@ == old(transfers)@.push(
                    Transfer { token: f.token, from: seller, to: f.recipient, amount: f.amount })
            },
            r is Err ==> *final(self) == *old(self) && final(transfers)@ == old(transfers)@,
    {
        let init = AuctionInit {
            seller, nft_contract, token_id, payment_token,
            first_price: start_price, second_price: end_price, duration_ledgers,
        };
        self.create_auction(env, init, AuctionType::Dutch, deployed, transfers)
    }

    pub fn get_auction_type(&self, auction_address: Account) -> (r: Option<AuctionType>)
        ensures
            r == type_of(self.auctions@, auction_address),
    {
        let mut i: usize = self.auctions.len();
        assert(self.auctions@.subrange(0, i as int) =~= self.auctions@);
        while i > 0
            invariant
                i <= self.auctions@.len(),
                type_of(self.auctions@, auction_address) == type_of(self.auctions@.subrange(0, i as int), auction_address),
            decreases i,
        {
            proof {
                assert(self.auctions@.subrange(0, i as int).drop_last() =~= self.auctions@.subrange(0, i - 1 as int));
            }
            if self.auctions[i - 1].address == auction_address {
                return Some(self.auctions[i - 1].auction_type);
            }
            i -= 1;
        }
        None
    }

    pub fn get_auction_count(&self) -> (r: u32)
        requires
            self.wf(),
        ensures
            r == self.auctions@.len(),
    {
        self.auctions.len() as u32
    }

    pub fn get_auction_by_index(&self, index: u32) -> (r: Option<Account>)
        ensures
            r == (if index < self.auctions@.len() { Some(self.auctions@[index as int].address) } else { None }),
    {
        if (index as usize) < self.auctions.len() {
            Some(self.auctions[index as usize].address)
        } else {
            None
        }
    }

    /// A page of deployed auction addresses: those at indexes `start` up to
    /// `start + min(limit, MAX_PAGE_SIZE)` (saturating), within the count.
    pub fn get_auctions(&self, start: u32, limit: u32) -> (r: Vec<Account>)
        requires
            self.wf(),
        ensures
            r@.len() == (if start < page_end(start, limit, self.auctions@.len() as u32) {
                page_end(start, limit, self.auctions@.len() as u32) - start
            } else {
                0
            }),
            forall|i: int| 0 <= i < r@.len() ==> r@[i] == self.auctions@[start + i].address,
    {
        let count = self.get_auction_count();
        let capped = if limit <= 100 { limit } else { 100 };
        let end = {
            let s = start.saturating_add(capped);
            if s <= count { s } else { count }
        };
        let mut out: Vec<Account> = Vec::new();
        let mut index: u32 = start;
        while index < end
            invariant
                start <= index,
                end <= count,
                count == self.auctions@.len(),
                end == page_end(start, limit, count),
                start < end ==> index <= end,
                start >= end ==> index == start,
                out@.len() == index - start,
                forall|i: int| 0 <= i < out@.len() ==> out@[i] == self.auctions@[start + i].address,
            decreases end - index,
        {
            match self.get_auction_by_index(index) {
                Some(a) => out.push(a),
                None => {},
            }
            index += 1;
        }
        out
    }
}

/// A page never holds more than `MAX_PAGE_SIZE` auctions, nor anything past
/// the ones deployed.
pub proof fn law_page_bounded(start: u32, limit: u32, count: u32)
    ensures
        page_end(start, limit, count) <= count,
        page_end(start, limit, count) - start <= MAX_PAGE_SIZE,
{
}

} // verus!
