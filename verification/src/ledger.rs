//! Accounts, token movements and per-account balances shared by the
//! contract models.

use vstd::prelude::*;

verus! {

/// A ledger identity: a Stellar account (ed25519 key) or a contract (hash),
/// by its 32-byte key split into two big-endian halves.
#[derive(Copy, Clone, Debug, PartialEq, Eq, Structural)]
pub struct Account {
    pub contract: bool,
    pub key_hi: u128,
    pub key_lo: u128,
}

/// A token movement that a contract call orders: `amount` of `token` from
/// `from` to `to`, in the order in which the call makes them.
#[derive(Copy, Clone, Debug, PartialEq, Eq, Structural)]
pub struct Transfer {
    pub token: Account,
    pub from: Account,
    pub to: Account,
    pub amount: i128,
}

/// One account's balance.
#[derive(Copy, Clone, Debug, PartialEq, Eq, Structural)]
pub struct Entry {
    pub account: Account,
    pub amount: i128,
}

/// The sum of the amounts that `s` holds for `a`.
pub open spec fn amount_in(s: Seq<Entry>, a: Account) -> int
    decreases s.len(),
{
    if s.len() == 0 {
        0
    } else {
        amount_in(s.drop_last(), a) + (if s.last().account == a { s.last().amount as int } else { 0 })
    }
}

/// The sum of all amounts in `s`.
pub open spec fn sum_amounts(s: Seq<Entry>) -> int
    decreases s.len(),
{
    if s.len() == 0 {
        0
    } else {
        sum_amounts(s.drop_last()) + s.last().amount
    }
}

/// No account occurs twice.
pub open spec fn unique_accounts(s: Seq<Entry>) -> bool {
    forall|i: int, j: int| 0 <= i < j < s.len() ==> s[i].account != s[j].account
}

pub proof fn lemma_amount_absent(s: Seq<Entry>, a: Account)
    requires
        forall|i: int| 0 <= i < s.len() ==> s[i].account != a,
    ensures
        amount_in(s, a) == 0,
    decreases s.len(),
{
    if s.len() > 0 {
        lemma_amount_absent(s.drop_last(), a);
    }
}

pub proof fn lemma_amount_at(s: Seq<Entry>, i: int, a: Account)
    requires
        unique_accounts(s),
        0 <= i < s.len(),
        s[i].account == a,
    ensures
        amount_in(s, a) == s[i].amount,
    decreases s.len(),
{
    if i == s.len() - 1 {
        lemma_amount_absent(s.drop_last(), a);
    } else {
        lemma_amount_at(s.drop_last(), i, a);
    }
}

pub proof fn lemma_update(s: Seq<Entry>, i: int, x: i128, b: Account)
    requires
        0 <= i < s.len(),
    ensures
        amount_in(s.update(i, Entry { account: s[i].account, amount: x }), b)
            == amount_in(s, b) + (if s[i].account == b { x - s[i].amount } else { 0 }),
        sum_amounts(s.update(i, Entry { account: s[i].account, amount: x }))
            == sum_amounts(s) + x - s[i].amount,
    decreases s.len(),
{
    let t = s.update(i, Entry { account: s[i].account, amount: x });
    if i == s.len() - 1 {
        assert(t.drop_last() =~= s.drop_last());
    } else {
        lemma_update(s.drop_last(), i, x, b);
        assert(t.drop_last() =~= s.drop_last().update(i, Entry { account: s[i].account, amount: x }));
    }
}

pub proof fn lemma_push(s: Seq<Entry>, e: Entry, b: Account)
    ensures
        amount_in(s.push(e), b) == amount_in(s, b) + (if e.account == b { e.amount as int } else { 0 }),
        sum_amounts(s.push(e)) == sum_amounts(s) + e.amount,
{
    assert(s.push(e).drop_last() =~= s);
}

/// Position of `a` in `v`, if it is there.
pub fn find_entry(v: &Vec<Entry>, a: Account) -> (r: Option<usize>)
    ensures
        r matches Some(i) ==> i < v.len() && v@[i as int].account == a,
        r is None ==> forall|i: int| 0 <= i < v.len() ==> v@[i].account != a,
{
    let mut i: usize = 0;
    while i < v.len()
        invariant
            i <= v.len(),
            forall|j: int| 0 <= j < i ==> v@[j].account != a,
        decreases v.len() - i,
    {
        if v[i].account == a {
            return Some(i);
        }
        i += 1;
    }
    None
}

/// The balance of `a` (0 when `a` has none).
pub fn balance_of(v: &Vec<Entry>, a: Account) -> (r: i128)
    requires
        unique_accounts(v@),
    ensures
        r == amount_in(v@, a),
{
    match find_entry(v, a) {
        Some(i) => {
            proof {
                lemma_amount_at(v@, i as int, a);
            }
            v[i].amount
        },
        None => {
            proof {
                lemma_amount_absent(v@, a);
            }
            0
        },
    }
}

/// Sets the balance of `a` to `x`.
pub fn set_balance(v: &mut Vec<Entry>, a: Account, x: i128)
    requires
        unique_accounts(old(v)@),
    ensures
        unique_accounts(final(v)@),
        forall|b: Account| amount_in(final(v)@, b) == if b == a { x as int } else { amount_in(old(v)@, b) },
        sum_amounts(final(v)@) == sum_amounts(old(v)@) - amount_in(old(v)@, a) + x,
{
    match find_entry(v, a) {
        Some(i) => {
            proof {
                lemma_amount_at(v@, i as int, a);
                assert forall|b: Account| #[trigger] amount_in(v@.update(i as int, Entry { account: a, amount: x }), b)
                    == if b == a { x as int } else { amount_in(v@, b) } by {
                    lemma_update(v@, i as int, x, b);
                }
                lemma_update(v@, i as int, x, a);
            }
            v.set(i, Entry { account: a, amount: x });
        },
        None => {
            proof {
                lemma_amount_absent(v@, a);
                assert forall|b: Account| #[trigger] amount_in(v@.push(Entry { account: a, amount: x }), b)
                    == if b == a { x as int } else { amount_in(v@, b) } by {
                    lemma_push(v@, Entry { account: a, amount: x }, b);
                }
                lemma_push(v@, Entry { account: a, amount: x }, a);
            }
            v.push(Entry { account: a, amount: x });
        },
    }
}

} // verus!
