use vstd::prelude::*;

use crate::errors::ContractError;
use crate::types::{Address, TokenBalance, TokenTransfer};

verus! {

/// A merchant's account: its owner, manager, merchant id, and the set of
/// tracked tokens with their available balances. Operations are rejected
/// until the account is initialized, and a token must be tracked before
/// its balance can be read or withdrawn from.
#[derive(Clone)]
pub struct MerchantAccount {
    pub initialized: bool,
    pub merchant: Address,
    pub manager: Address,
    pub merchant_id: u64,
    pub tokens: Vec<TokenBalance>,
}

impl MerchantAccount {
    /// A token is tracked when it has a balance entry.
    pub open spec fn is_tracked(self, token: Address) -> bool {
        exists|i: int|
            0 <= i < self.tokens@.len() && (#[trigger] self.tokens@[i]).token == token
    }

    /// Well-formedness: an uninitialized account tracks nothing, tracked
    /// tokens are unique, and no balance is ever negative.
    pub open spec fn wf(self) -> bool {
        &&& !self.initialized ==> self.tokens@.len() == 0
        &&& forall|i: int, j: int|
            0 <= i < j < self.tokens@.len()
                ==> (#[trigger] self.tokens@[i]).token != (#[trigger] self.tokens@[j]).token
        &&& forall|i: int|
            0 <= i < self.tokens@.len() ==> (#[trigger] self.tokens@[i]).balance >= 0
    }

    /// The position of the balance entry for `token`; meaningful only
    /// when `is_tracked` holds (tracked tokens are unique under `wf`).
    pub open spec fn token_ix(self, token: Address) -> int {
        choose|i: int|
            0 <= i < self.tokens@.len() && (#[trigger] self.tokens@[i]).token == token
    }

    /// The available balance of a tracked token; zero for an untracked one.
    pub open spec fn balance_of(self, token: Address) -> i128 {
        if self.is_tracked(token) {
            self.tokens@[self.token_ix(token)].balance
        } else {
            0
        }
    }

    /// An account that has not been set up yet.
    pub fn new() -> (a: MerchantAccount)
        ensures
            a.wf(),
            !a.initialized,
    {
        MerchantAccount {
            initialized: false,
            merchant: Address { id: 0 },
            manager: Address { id: 0 },
            merchant_id: 0,
            tokens: Vec::new(),
        }
    }

    /// Sets the account up for its merchant; may happen only once.
    pub fn initialize(&mut self, merchant: Address, manager: Address, merchant_id: u64) -> (r:
        Result<(), ContractError>)
        requires
            old(self).wf(),
        ensures
            final(self).wf(),
            old(self).initialized ==> r == Err::<(), ContractError>(
                ContractError::AlreadyInitialized,
            ) && *final(self) == *old(self),
            !old(self).initialized ==> {
                &&& r == Ok::<(), ContractError>(())
                &&& *final(self) == (MerchantAccount {
                    initialized: true,
                    merchant,
                    manager,
                    merchant_id,
                    tokens: old(self).tokens,
                })
                &&& final(self).tokens@.len() == 0
            },
    {
        if self.initialized {
            return Err(ContractError::AlreadyInitialized);
        }
        self.initialized = true;
        self.merchant = merchant;
        self.manager = manager;
        self.merchant_id = merchant_id;
        Ok(())
    }

    /// The caller may manage tracked tokens when it is the account's
    /// merchant (owner) or its manager.
    pub open spec fn may_manage(self, caller: Address) -> bool {
        caller == self.merchant || caller == self.manager
    }

    /// Starts tracking `token`, with a zero balance when it was not
    /// tracked before; idempotent. Gated on the owner or manager.
    pub fn add_token(&mut self, caller: Address, token: Address) -> (r: Result<
        (),
        ContractError,
    >)
        requires
            old(self).wf(),
        ensures
            final(self).wf(),
            !old(self).initialized ==> r == Err::<(), ContractError>(
                ContractError::NotInitialized,
            ) && *final(self) == *old(self),
            old(self).initialized && !old(self).may_manage(caller) ==> r == Err::<
                (),
                ContractError,
            >(ContractError::NotAuthorized) && *final(self) == *old(self),
            old(self).initialized && old(self).may_manage(caller) ==> {
                &&& r == Ok::<(), ContractError>(())
                &&& forall|t: Address|
                    final(self).is_tracked(t) <==> (old(self).is_tracked(t) || t == token)
                &&& final(self).balance_of(token) == if old(self).is_tracked(token) {
                    old(self).balance_of(token)
                } else {
                    0
                }
                &&& forall|t: Address|
                    t != token ==> final(self).balance_of(t) == old(self).balance_of(t)
                &&& final(self).initialized == old(self).initialized
                &&& final(self).merchant == old(self).merchant
                &&& final(self).manager == old(self).manager
                &&& final(self).merchant_id == old(self).merchant_id
            },
    {
        if !self.initialized {
            return Err(ContractError::NotInitialized);
        }
        if !(caller == self.merchant || caller == self.manager) {
            return Err(ContractError::NotAuthorized);
        }
        let mut i: usize = 0;
        while i < self.tokens.len()
            invariant
                i <= self.tokens.len(),
                *self == *old(self),
                old(self).wf(),
                old(self).initialized,
                old(self).may_manage(caller),
                forall|j: int| 0 <= j < i ==> (#[trigger] self.tokens@[j]).token != token,
            decreases self.tokens.len() - i,
        {
            if self.tokens[i].token == token {
                proof {
                    assert(self.is_tracked(token));
                    Self::lemma_unchanged_balances(*old(self), *self);
                }
                return Ok(());
            }
            i += 1;
        }
        let n: usize = self.tokens.len();
        self.tokens.push(TokenBalance { token, balance: 0 });
        proof {
            let nv = n as int;
            assert(self.tokens@[nv].token == token);
            assert(self.is_tracked(token));
            assert forall|t: Address|
                self.is_tracked(t) <==> (old(self).is_tracked(t) || t == token) by {
                if old(self).is_tracked(t) {
                    let k = old(self).token_ix(t);
                    assert(self.tokens@[k].token == t);
                }
                if self.is_tracked(t) && t != token {
                    let k = choose|k: int|
                        0 <= k < self.tokens@.len() && (#[trigger] self.tokens@[k]).token == t;
                    assert(k != nv);
                    assert(old(self).tokens@[k].token == t);
                    assert(old(self).is_tracked(t));
                }
            }
            Self::lemma_entry_write(*old(self), *self, token, 0, nv);
        }
        Ok(())
    }

    /// Reads the balance of a tracked token. Querying an untracked token
    /// is an error, not a zero-balance answer: it distinguishes "balance
    /// is zero" from "this account never heard of this asset".
    pub fn get_balance(&self, token: Address) -> (r: Result<i128, ContractError>)
        requires
            self.wf(),
        ensures
            self.is_tracked(token) ==> r == Ok::<i128, ContractError>(self.balance_of(token))
                && self.balance_of(token) >= 0,
            !self.is_tracked(token) ==> r == Err::<i128, ContractError>(
                ContractError::TokenNotFound,
            ),
    {
        let mut i: usize = 0;
        while i < self.tokens.len()
            invariant
                i <= self.tokens.len(),
                self.wf(),
                forall|j: int| 0 <= j < i ==> (#[trigger] self.tokens@[j]).token != token,
            decreases self.tokens.len() - i,
        {
            if self.tokens[i].token == token {
                proof {
                    let k = self.token_ix(token);
                    if k != i as int {
                        assert(self.tokens@[k].token == self.tokens@[i as int].token);
                        assert(false);
                    }
                }
                return Ok(self.tokens[i].balance);
            }
            i += 1;
        }
        Err(ContractError::TokenNotFound)
    }

    /// All tracked balances, in tracking order; never fails.
    pub fn get_balances(&self) -> (r: Vec<TokenBalance>)
        ensures
            r@ == self.tokens@,
    {
        let mut out: Vec<TokenBalance> = Vec::new();
        let mut i: usize = 0;
        while i < self.tokens.len()
            invariant
                i <= self.tokens.len(),
                out@ == self.tokens@.take(i as int),
            decreases self.tokens.len() - i,
        {
            out.push(self.tokens[i]);
            proof {
                assert(self.tokens@.take(i + 1) =~= self.tokens@.take(i as int).push(
                    self.tokens@[i as int],
                ));
            }
            i += 1;
        }
        proof {
            assert(self.tokens@.take(self.tokens@.len() as int) =~= self.tokens@);
        }
        out
    }

    /// Credits a tracked token, as when an external payment arrives. The
    /// token must already be tracked and the amount positive.
    pub fn deposit(&mut self, token: Address, amount: i128) -> (r: Result<(), ContractError>)
        requires
            old(self).wf(),
            old(self).balance_of(token) + amount <= i128::MAX,
        ensures
            final(self).wf(),
            !old(self).initialized ==> r == Err::<(), ContractError>(
                ContractError::NotInitialized,
            ) && *final(self) == *old(self),
            old(self).initialized && !old(self).is_tracked(token) ==> r == Err::<
                (),
                ContractError,
            >(ContractError::TokenNotFound) && *final(self) == *old(self),
            old(self).initialized && old(self).is_tracked(token) && amount <= 0 ==> r == Err::<
                (),
                ContractError,
            >(ContractError::InvalidAmount) && *final(self) == *old(self),
            old(self).initialized && old(self).is_tracked(token) && amount > 0 ==> {
                &&& r == Ok::<(), ContractError>(())
                &&& final(self).balance_of(token) == old(self).balance_of(token) + amount
                &&& forall|t: Address|
                    final(self).is_tracked(t) <==> old(self).is_tracked(t)
                &&& forall|t: Address|
                    t != token ==> final(self).balance_of(t) == old(self).balance_of(t)
                &&& final(self).initialized == old(self).initialized
                &&& final(self).merchant == old(self).merchant
                &&& final(self).manager == old(self).manager
                &&& final(self).merchant_id == old(self).merchant_id
            },
    {
        if !self.initialized {
            return Err(ContractError::NotInitialized);
        }
        let mut i: usize = 0;
        while i < self.tokens.len()
            invariant
                i <= self.tokens.len(),
                *self == *old(self),
                old(self).wf(),
                old(self).initialized,
                old(self).balance_of(token) + amount <= i128::MAX,
                forall|j: int| 0 <= j < i ==> (#[trigger] self.tokens@[j]).token != token,
            decreases self.tokens.len() - i,
        {
            if self.tokens[i].token == token {
                proof {
                    let k = self.token_ix(token);
                    if k != i as int {
                        assert(self.tokens@[k].token == self.tokens@[i as int].token);
                        assert(false);
                    }
                }
                if amount <= 0 {
                    return Err(ContractError::InvalidAmount);
                }
                let updated = self.tokens[i].balance + amount;
                self.tokens.set(i, TokenBalance { token, balance: updated });
                proof {
                    Self::lemma_entry_write(*old(self), *self, token, updated, i as int);
                }
                return Ok(());
            }
            i += 1;
        }
        Err(ContractError::TokenNotFound)
    }

    /// The error a withdrawal attempt reports, or `None` when it
    /// succeeds: the checks run in this order, and the first failing one
    /// decides. The token's tracking is checked before any balance
    /// arithmetic.
    pub open spec fn withdraw_error(self, caller: Address, token: Address, amount: i128) -> Option<
        ContractError,
    > {
        if !self.initialized {
            Some(ContractError::NotInitialized)
        } else if caller != self.merchant {
            Some(ContractError::NotAuthorized)
        } else if !self.is_tracked(token) {
            Some(ContractError::TokenNotFound)
        } else if amount <= 0 {
            Some(ContractError::InvalidAmount)
        } else if amount > self.balance_of(token) {
            Some(ContractError::InsufficientBalance)
        } else {
            None
        }
    }

    /// Withdraws `amount` of a tracked token to the account owner. On
    /// success the balance is debited and the transfer the host must
    /// perform is handed back; the host commits the new state only if
    /// that transfer succeeds. On any error the state is unchanged: in
    /// particular a request above the available balance leaves the
    /// balance untouched and reports `InsufficientBalance`.
    pub fn withdraw(&mut self, caller: Address, token: Address, amount: i128) -> (r: Result<
        TokenTransfer,
        ContractError,
    >)
        requires
            old(self).wf(),
        ensures
            final(self).wf(),
            match old(self).withdraw_error(caller, token, amount) {
                Some(e) => r == Err::<TokenTransfer, ContractError>(e) && *final(self) == *old(
                    self,
                ),
                None => {
                    &&& r == Ok::<TokenTransfer, ContractError>(
                        (TokenTransfer { token, to: caller, amount }),
                    )
                    &&& final(self).balance_of(token) == old(self).balance_of(token) - amount
                    &&& final(self).balance_of(token) >= 0
                    &&& forall|t: Address|
                        final(self).is_tracked(t) <==> old(self).is_tracked(t)
                    &&& forall|t: Address|
                        t != token ==> final(self).balance_of(t) == old(self).balance_of(t)
                    &&& final(self).initialized == old(self).initialized
                    &&& final(self).merchant == old(self).merchant
                    &&& final(self).manager == old(self).manager
                    &&& final(self).merchant_id == old(self).merchant_id
                },
            },
    {
        if !self.initialized {
            return Err(ContractError::NotInitialized);
        }
        if caller != self.merchant {
            return Err(ContractError::NotAuthorized);
        }
        let mut i: usize = 0;
        while i < self.tokens.len()
            invariant
                i <= self.tokens.len(),
                *self == *old(self),
                old(self).wf(),
                old(self).initialized,
                caller == old(self).merchant,
                forall|j: int| 0 <= j < i ==> (#[trigger] self.tokens@[j]).token != token,
            decreases self.tokens.len() - i,
        {
            if self.tokens[i].token == token {
                proof {
                    let k = self.token_ix(token);
                    if k != i as int {
                        assert(self.tokens@[k].token == self.tokens@[i as int].token);
                        assert(false);
                    }
                }
                if amount <= 0 {
                    return Err(ContractError::InvalidAmount);
                }
                let available = self.tokens[i].balance;
                if amount > available {
                    return Err(ContractError::InsufficientBalance);
                }
                let updated = available - amount;
                self.tokens.set(i, TokenBalance { token, balance: updated });
                proof {
                    Self::lemma_entry_write(*old(self), *self, token, updated, i as int);
                }
                return Ok(TokenTransfer { token, to: caller, amount });
            }
            i += 1;
        }
        Err(ContractError::TokenNotFound)
    }

    /// Law: under well-formedness every tracked balance is non-negative;
    /// since every operation preserves well-formedness, no sequence of
    /// deposits and withdrawals can drive a balance below zero.
    pub proof fn lemma_no_negative_balance(a: MerchantAccount, token: Address)
        requires
            a.wf(),
        ensures
            a.balance_of(token) >= 0,
    {
    }

    /// Law: a token never added is distinguished from a zero balance. An
    /// account state that does not track `token` answers `TokenNotFound`
    /// to a balance query (by `get_balance`'s contract); after `add_token`
    /// writes the zero entry, the same query answers a balance of zero.
    pub proof fn lemma_untracked_then_tracked(
        pre: MerchantAccount,
        post: MerchantAccount,
        token: Address,
    )
        requires
            pre.wf(),
            !pre.is_tracked(token),
            post.tokens@ == pre.tokens@.push((TokenBalance { token, balance: 0 })),
        ensures
            post.is_tracked(token),
            post.balance_of(token) == 0,
    {
        let nv = pre.tokens@.len() as int;
        assert(post.tokens@[nv].token == token);
        Self::lemma_entry_write(pre, post, token, 0, nv);
    }

    /// Two account states with the same balance entries assign every token
    /// the same tracking status and balance.
    proof fn lemma_unchanged_balances(pre: MerchantAccount, post: MerchantAccount)
        requires
            pre.tokens@ == post.tokens@,
        ensures
            forall|t: Address| pre.is_tracked(t) <==> post.is_tracked(t),
            forall|t: Address| #[trigger] pre.balance_of(t) == post.balance_of(t),
    {
    }

    /// After writing the entry for `token` at position `iv` (all other
    /// entries unchanged), `token`'s balance is the written one and every
    /// other token keeps its tracking status and balance.
    proof fn lemma_entry_write(
        pre: MerchantAccount,
        post: MerchantAccount,
        token: Address,
        balance: i128,
        iv: int,
    )
        requires
            pre.wf(),
            0 <= iv < post.tokens@.len(),
            iv <= pre.tokens@.len(),
            post.tokens@[iv] == (TokenBalance { token, balance }),
            iv < pre.tokens@.len() ==> post.tokens@.len() == pre.tokens@.len(),
            iv == pre.tokens@.len() ==> post.tokens@.len() == pre.tokens@.len() + 1,
            forall|j: int|
                0 <= j < post.tokens@.len() && j != iv ==> #[trigger] post.tokens@[j]
                    == pre.tokens@[j],
            forall|j: int|
                0 <= j < pre.tokens@.len() && j != iv ==> (#[trigger] pre.tokens@[j]).token
                    != token,
            iv < pre.tokens@.len() ==> pre.tokens@[iv].token == token,
            balance >= 0,
        ensures
            forall|i: int, j: int|
                0 <= i < j < post.tokens@.len() ==> (#[trigger] post.tokens@[i]).token
                    != (#[trigger] post.tokens@[j]).token,
            forall|i: int| 0 <= i < post.tokens@.len() ==> (#[trigger] post.tokens@[i]).balance >= 0,
            post.is_tracked(token),
            post.balance_of(token) == balance,
            forall|t: Address|
                t != token ==> (post.is_tracked(t) <==> pre.is_tracked(t)),
            forall|t: Address| t != token ==> post.balance_of(t) == pre.balance_of(t),
    {
        assert forall|i: int, j: int| 0 <= i < j < post.tokens@.len() implies (
        #[trigger] post.tokens@[i]).token != (#[trigger] post.tokens@[j]).token by {
            if i != iv && j != iv {
                assert(pre.tokens@[i].token != pre.tokens@[j].token);
            }
        }
        assert(post.tokens@[iv].token == token);
        let k = post.token_ix(token);
        assert(post.tokens@[k].token == token);
        if k != iv {
            assert(false);
        }
        assert forall|t: Address| t != token implies (post.is_tracked(t) <==> pre.is_tracked(t))
            && post.balance_of(t) == pre.balance_of(t) by {
            if post.is_tracked(t) {
                let k2 = choose|k2: int|
                    0 <= k2 < post.tokens@.len() && (#[trigger] post.tokens@[k2]).token == t;
                assert(k2 != iv);
                assert(pre.tokens@[k2].token == t);
                assert(pre.is_tracked(t));
            }
            if pre.is_tracked(t) {
                let k2 = pre.token_ix(t);
                assert(pre.tokens@[k2].token == t);
                assert(k2 != iv);
                assert(post.tokens@[k2].token == t);
                assert(post.is_tracked(t));
            }
            if post.is_tracked(t) {
                let ka = post.token_ix(t);
                let kb = pre.token_ix(t);
                assert(post.tokens@[ka].token == t);
                assert(pre.tokens@[kb].token == t);
                assert(ka != iv);
                assert(pre.tokens@[ka].token == t);
                if ka != kb {
                    assert(pre.tokens@[ka].token != pre.tokens@[kb].token);
                    assert(false);
                }
                assert(post.tokens@[ka] == pre.tokens@[ka]);
            }
        }
    }
}

} // verus!
