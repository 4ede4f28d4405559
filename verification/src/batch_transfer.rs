//! Pays many recipients from one sender in a single call, either all or
//! nothing, or skipping the payments that cannot be made.

use vstd::prelude::*;
use crate::ledger::{Account, Transfer};

verus! {

#[derive(Copy, Clone, Debug, PartialEq, Eq, Structural)]
pub enum Error {
    EmptyBatch,
    LengthMismatch,
    InvalidAmount,
    InsufficientBalance,
    TooManyRecipients,
}

impl Error {
    /// The contract error code.
    pub fn code(&self) -> (r: u32)
        ensures
            r == match self {
                Error::EmptyBatch => 1u32,
                Error::LengthMismatch => 2,
                Error::InvalidAmount => 3,
                Error::InsufficientBalance => 4,
                Error::TooManyRecipients => 5,
            },
    {
        match self {
            Error::EmptyBatch => 1,
            Error::LengthMismatch => 2,
            Error::InvalidAmount => 3,
            Error::InsufficientBalance => 4,
            Error::TooManyRecipients => 5,
        }
    }
}

/// Upper bound on recipients per batch.
pub const MAX_RECIPIENTS: u32 = 100;

#[derive(Copy, Clone, Debug, PartialEq, Eq, Structural)]
pub enum ExecutionMode {
    /// Any payment that cannot be made fails the whole batch.
    AllOrNothing,
    /// Payments that cannot be made are reported and skipped.
    Partial,
}

#[derive(Copy, Clone, Debug, PartialEq, Eq, Structural)]
pub enum TransferFailure {
    NoFailure,
    InvalidAmount,
    InsufficientBalance,
}

/// The outcome of one payment of a batch.
#[derive(Copy, Clone, Debug, PartialEq, Eq, Structural)]
pub struct TransferResult {
    pub recipient: Account,
    pub amount: i128,
    pub success: bool,
    pub failure: TransferFailure,
}

/// The all-zero account key, as an account ("G...WHF") or a contract
/// ("C...D2KM"): no one can receive a payment there.
pub open spec fn is_zero_address(a: Account) -> bool {
    a.key_hi == 0 && a.key_lo == 0
}

/// The batch over its first `k` payments, starting from the sender's
/// `balance`: the balance left and the results so far, or the error that
/// fails an all-or-nothing batch.
pub open spec fn batch_acc(
    recipients: Seq<Account>,
    amounts: Seq<i128>,
    all_or_nothing: bool,
    balance: int,
    k: int,
) -> Result<(int, Seq<TransferResult>), Error>
    decreases k,
{
    if k <= 0 {
        Ok((balance, Seq::empty()))
    } else {
        match batch_acc(recipients, amounts, all_or_nothing, balance, k - 1) {
            Err(e) => Err(e),
            Ok((rem, results)) => {
                let to = recipients[k - 1];
                let amount = amounts[k - 1];
                if amount <= 0 || is_zero_address(to) {
                    if all_or_nothing {
                        Err(Error::InvalidAmount)
                    } else {
                        Ok((rem, results.push(TransferResult {
                            recipient: to, amount, success: false, failure: TransferFailure::InvalidAmount,
                        })))
                    }
                } else if rem < amount {
                    if all_or_nothing {
                        Err(Error::InsufficientBalance)
                    } else {
                        Ok((rem, results.push(TransferResult {
                            recipient: to, amount, success: false, failure: TransferFailure::InsufficientBalance,
                        })))
                    }
                } else {
                    Ok((rem - amount, results.push(TransferResult {
                        recipient: to, amount, success: true, failure: TransferFailure::NoFailure,
                    })))
                }
            },
        }
    }
}

/// The outcome of a batch paid from a sender holding `balance`.
pub open spec fn batch_spec(
    recipients: Seq<Account>,
    amounts: Seq<i128>,
    mode: ExecutionMode,
    balance: int,
) -> Result<Seq<TransferResult>, Error> {
    if recipients.len() == 0 {
        Err(Error::EmptyBatch)
    } else if recipients.len() > MAX_RECIPIENTS {
        Err(Error::TooManyRecipients)
    } else if recipients.len() != amounts.len() {
        Err(Error::LengthMismatch)
    } else {
        match batch_acc(recipients, amounts, mode == ExecutionMode::AllOrNothing, balance, recipients.len() as int) {
            Err(e) => Err(e),
            Ok((_, results)) => Ok(results),
        }
    }
}

/// The payments made for `results`: one per successful result, in order.
pub open spec fn payments(results: Seq<TransferResult>, token: Account, sender: Account) -> Seq<Transfer>
    decreases results.len(),
{
    if results.len() == 0 {
        Seq::empty()
    } else {
        let rest = payments(results.drop_last(), token, sender);
        let r = results.last();
        if r.success {
            rest.push(Transfer { token, from: sender, to: r.recipient, amount: r.amount })
        } else {
            rest
        }
    }
}

/// Pays `amounts[i]` of `token` from `sender` to `recipients[i]`, in
/// order, from the sender's `balance` as the token reports it. A payment
/// of a nonpositive amount or to the zero address is invalid, one beyond
/// what is left of the balance is short; in `AllOrNothing` mode either fails
/// the batch, in `Partial` mode it is reported and skipped. The payments are
/// made (appended to `transfers`) only where `do_transfer` holds.
pub fn process_batch(
    token: Account,
    sender: Account,
    balance: i128,
    recipients: &Vec<Account>,
    amounts: &Vec<i128>,
    mode: ExecutionMode,
    do_transfer: bool,
    transfers: &mut Vec<Transfer>,
) -> (r: Result<Vec<TransferResult>, Error>)
    ensures
        match r {
            Ok(v) => batch_spec(recipients@, amounts@, mode, balance as int) == Ok::<Seq<TransferResult>, Error>(v@),
            Err(e) => batch_spec(recipients@, amounts@, mode, balance as int) == Err::<Seq<TransferResult>, Error>(e),
        },
        r matches Ok(v) ==> final(transfers)@ == if do_transfer {
            old(transfers)@ + payments(v@, token, sender)
        } else {
            old(transfers)@
        },
        r is Err ==> final(transfers)@ == old(transfers)@,
{
    let len = recipients.len();
    if len == 0 {
        return Err(Error::EmptyBatch);
    }
    if len > 100 {
        return Err(Error::TooManyRecipients);
    }
    if len != amounts.len() {
        return Err(Error::LengthMismatch);
    }
    let all_or_nothing = match mode {
        ExecutionMode::AllOrNothing => true,
        ExecutionMode::Partial => false,
    };
    let mut remaining: i128 = balance;
    let mut results: Vec<TransferResult> = Vec::new();
    let mut paid: Vec<Transfer> = Vec::new();
    let mut i: usize = 0;
    while i < len
        invariant
            len == recipients@.len(),
            len == amounts@.len(),
            0 < len <= MAX_RECIPIENTS,
            *transfers == *old(transfers),
            all_or_nothing == (mode == ExecutionMode::AllOrNothing),
            i <= len,
            batch_acc(recipients@, amounts@, all_or_nothing, balance as int, i as int)
                == Ok::<(int, Seq<TransferResult>), Error>((remaining as int, results@)),
            paid@ == payments(results@, token, sender),
        decreases len - i,
    {
        let to = recipients[i];
        let amount = amounts[i];
        proof {
            lemma_batch_sticks(recipients@, amounts@, all_or_nothing, balance as int, i as int + 1, len as int);
        }
        if amount <= 0 || (to.key_hi == 0 && to.key_lo == 0) {
            if all_or_nothing {
                return Err(Error::InvalidAmount);
            }
            let r = TransferResult { recipient: to, amount, success: false, failure: TransferFailure::InvalidAmount };
            proof {
                assert(results@.push(r).drop_last() =~= results@);
            }
            results.push(r);
        } else if remaining < amount {
            if all_or_nothing {
                return Err(Error::InsufficientBalance);
            }
            let r = TransferResult { recipient: to, amount, success: false, failure: TransferFailure::InsufficientBalance };
            proof {
                assert(results@.push(r).drop_last() =~= results@);
            }
            results.push(r);
        } else {
            remaining = remaining - amount;
            let r = TransferResult { recipient: to, amount, success: true, failure: TransferFailure::NoFailure };
            proof {
                assert(results@.push(r).drop_last() =~= results@);
            }
            results.push(r);
            paid.push(Transfer { token, from: sender, to, amount });
        }
        i += 1;
    }
    if do_transfer {
        let mut j: usize = 0;
        let ghost start = transfers@;
        while j < paid.len()
            invariant
                j <= paid@.len(),
                transfers@ == start + paid@.subrange(0, j as int),
            decreases paid@.len() - j,
        {
            transfers.push(paid[j]);
            j += 1;
            assert(start + paid@.subrange(0, j as int) =~= (start + paid@.subrange(0, j - 1 as int)).push(paid@[j - 1]));
        }
        assert(paid@.subrange(0, paid@.len() as int) =~= paid@);
    }
    Ok(results)
}

/// Once the batch fails it stays failed with the same error.
proof fn lemma_batch_sticks(
    recipients: Seq<Account>,
    amounts: Seq<i128>,
    all_or_nothing: bool,
    balance: int,
    k: int,
    n: int,
)
    requires
        k <= n,
    ensures
        batch_acc(recipients, amounts, all_or_nothing, balance, k) is Err ==>
            batch_acc(recipients, amounts, all_or_nothing, balance, n) == batch_acc(recipients, amounts, all_or_nothing, balance, k),
    decreases n - k,
{
    if k < n {
        lemma_batch_sticks(recipients, amounts, all_or_nothing, balance, k, n - 1);
    }
}

/// The batch-payment contract.
pub struct BatchTransfer;

impl BatchTransfer {
    /// Runs the batch and makes its payments.
    pub fn execute(
        token: Account,
        sender: Account,
        balance: i128,
        recipients: &Vec<Account>,
        amounts: &Vec<i128>,
        mode: ExecutionMode,
        transfers: &mut Vec<Transfer>,
    ) -> (r: Result<Vec<TransferResult>, Error>)
        ensures
            match r {
                Ok(v) => batch_spec(recipients@, amounts@, mode, balance as int) == Ok::<Seq<TransferResult>, Error>(v@),
                Err(e) => batch_spec(recipients@, amounts@, mode, balance as int) == Err::<Seq<TransferResult>, Error>(e),
            },
            r matches Ok(v) ==> final(transfers)@ == old(transfers)@ + payments(v@, token, sender),
            r is Err ==> final(transfers)@ == old(transfers)@,
    {
        process_batch(token, sender, balance, recipients, amounts, mode, true, transfers)
    }

    /// Runs the batch without paying: what `execute` would report.
    pub fn quote(
        token: Account,
        sender: Account,
        balance: i128,
        recipients: &Vec<Account>,
        amounts: &Vec<i128>,
        mode: ExecutionMode,
    ) -> (r: Result<Vec<TransferResult>, Error>)
        ensures
            match r {
                Ok(v) => batch_spec(recipients@, amounts@, mode, balance as int) == Ok::<Seq<TransferResult>, Error>(v@),
                Err(e) => batch_spec(recipients@, amounts@, mode, balance as int) == Err::<Seq<TransferResult>, Error>(e),
            },
    {
        let mut none: Vec<Transfer> = Vec::new();
        process_batch(token, sender, balance, recipients, amounts, mode, false, &mut none)
    }
}


/// The total of the successful payments in `results`.
pub open spec fn paid_total(results: Seq<TransferResult>) -> int
    decreases results.len(),
{
    if results.len() == 0 {
        0
    } else {
        paid_total(results.drop_last()) + if results.last().success { results.last().amount as int } else { 0 }
    }
}

proof fn lemma_batch_acc(
    recipients: Seq<Account>,
    amounts: Seq<i128>,
    all_or_nothing: bool,
    balance: int,
    k: int,
)
    requires
        0 <= k,
    ensures
        batch_acc(recipients, amounts, all_or_nothing, balance, k) matches Ok((rem, results)) ==> {
            &&& results.len() == k
            &&& rem == balance - paid_total(results)
            &&& (balance >= 0 ==> rem >= 0)
            &&& forall|i: int| 0 <= i < k ==> (#[trigger] results[i]).recipient == recipients[i]
                && results[i].amount == amounts[i]
                && (results[i].success ==> results[i].amount > 0 && !is_zero_address(results[i].recipient))
            &&& all_or_nothing ==> forall|i: int| 0 <= i < k ==> (#[trigger] results[i]).success
        },
    decreases k,
{
    if k > 0 {
        lemma_batch_acc(recipients, amounts, all_or_nothing, balance, k - 1);
        if let Ok((rem, results)) = batch_acc(recipients, amounts, all_or_nothing, balance, k) {
            if let Ok((rem0, results0)) = batch_acc(recipients, amounts, all_or_nothing, balance, k - 1) {
                assert(results.drop_last() =~= results0);
            }
        }
    }
}

/// A batch pays out no more than the sender holds, reports every payment
/// in order, and pays only positive amounts to real addresses; an
/// all-or-nothing batch that succeeds made every payment.
pub proof fn law_batch_within_balance(
    recipients: Seq<Account>,
    amounts: Seq<i128>,
    mode: ExecutionMode,
    balance: int,
)
    requires
        balance >= 0,
    ensures
        batch_spec(recipients, amounts, mode, balance) matches Ok(results) ==> {
            &&& results.len() == recipients.len()
            &&& paid_total(results) <= balance
            &&& forall|i: int| 0 <= i < results.len() ==> (#[trigger] results[i]).recipient == recipients[i]
                && results[i].amount == amounts[i]
                && (results[i].success ==> results[i].amount > 0 && !is_zero_address(results[i].recipient))
            &&& mode == ExecutionMode::AllOrNothing ==> forall|i: int| 0 <= i < results.len() ==> (#[trigger] results[i]).success
        },
{
    lemma_batch_acc(recipients, amounts, mode == ExecutionMode::AllOrNothing, balance, recipients.len() as int);
}

} // verus!
