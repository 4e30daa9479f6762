use vstd::prelude::*;

use crate::errors::ContractError;
use crate::types::{
    Address, FeeEntry, Invoice, InvoiceFilter, InvoicePaidEvent, InvoiceStatus, Merchant, Role,
    RoleGrant, Settlement, TokenTransfer,
};

verus! {

/// The invoice platform's state: role memberships, the merchant registry,
/// the invoice records, and the per-token fee schedule. Invoice and
/// merchant ids are the (1-based) positions of the records, so both are
/// sequential, unique, and never reused.
#[derive(Clone)]
pub struct Ledger {
    pub roles: Vec<RoleGrant>,
    pub merchants: Vec<Merchant>,
    pub invoices: Vec<Invoice>,
    pub fees: Vec<FeeEntry>,
}

impl Ledger {
    /// A principal holds a role exactly when the membership set has the pair.
    pub open spec fn has_role_spec(self, principal: Address, role: Role) -> bool {
        exists|i: int|
            0 <= i < self.roles@.len() && self.roles@[i] == (RoleGrant { principal, role })
    }

    /// Well-formedness: ids are the 1-based record positions, merchant
    /// addresses are unique, invoice amounts are positive, invoice
    /// merchants exist, pending invoices carry no payment data, fee
    /// entries are unique and non-negative, and role grants do not repeat.
    pub open spec fn wf(self) -> bool {
        &&& forall|i: int|
            0 <= i < self.merchants@.len() ==> (#[trigger] self.merchants@[i]).id == i + 1
        &&& forall|i: int, j: int|
            0 <= i < j < self.merchants@.len()
                ==> (#[trigger] self.merchants@[i]).address != (#[trigger] self.merchants@[j]).address
        &&& forall|i: int|
            0 <= i < self.invoices@.len() ==> (#[trigger] self.invoices@[i]).id == i + 1
        &&& forall|i: int|
            0 <= i < self.invoices@.len() ==> (#[trigger] self.invoices@[i]).amount > 0
        &&& forall|i: int|
            0 <= i < self.invoices@.len()
                ==> 1 <= (#[trigger] self.invoices@[i]).merchant_id <= self.merchants@.len()
        &&& forall|i: int, j: int|
            0 <= i < j < self.fees@.len()
                ==> (#[trigger] self.fees@[i]).token != (#[trigger] self.fees@[j]).token
        &&& forall|i: int|
            0 <= i < self.fees@.len() ==> (#[trigger] self.fees@[i]).fee >= 0
        &&& forall|i: int, j: int|
            0 <= i < j < self.roles@.len()
                ==> #[trigger] self.roles@[i] != #[trigger] self.roles@[j]
    }

    /// A fresh ledger whose only state is the deployer's Admin role.
    pub fn new(admin: Address) -> (l: Ledger)
        ensures
            l.wf(),
            forall|p: Address, r: Role|
                l.has_role_spec(p, r) <==> (p == admin && r == Role::Admin),
            l.merchants@.len() == 0,
            l.invoices@.len() == 0,
            l.fees@.len() == 0,
    {
        let mut roles: Vec<RoleGrant> = Vec::new();
        roles.push(RoleGrant { principal: admin, role: Role::Admin });
        let l = Ledger { roles, merchants: Vec::new(), invoices: Vec::new(), fees: Vec::new() };
        proof {
            assert forall|p: Address, r: Role|
                l.has_role_spec(p, r) <==> (p == admin && r == Role::Admin) by {
                if p == admin && r == Role::Admin {
                    assert(l.roles@[0] == (RoleGrant { principal: p, role: r }));
                }
            }
        }
        l
    }

    /// Grants `role` to `principal`; idempotent. Only an Admin may grant.
    pub fn grant_role(&mut self, caller: Address, principal: Address, role: Role) -> (r: Result<
        (),
        ContractError,
    >)
        requires
            old(self).wf(),
        ensures
            final(self).wf(),
            !old(self).has_role_spec(caller, Role::Admin) ==> r == Err::<(), ContractError>(
                ContractError::NotAuthorized,
            ) && *final(self) == *old(self),
            old(self).has_role_spec(caller, Role::Admin) ==> {
                &&& r == Ok::<(), ContractError>(())
                &&& forall|p: Address, q: Role|
                    final(self).has_role_spec(p, q) <==> (old(self).has_role_spec(p, q) || (p
                        == principal && q == role))
                &&& final(self).merchants@ == old(self).merchants@
                &&& final(self).invoices@ == old(self).invoices@
                &&& final(self).fees@ == old(self).fees@
            },
    {
        if !self.has_role(caller, Role::Admin) {
            return Err(ContractError::NotAuthorized);
        }
        if !self.has_role(principal, role) {
            self.roles.push(RoleGrant { principal, role });
            proof {
                let n: int = old(self).roles@.len() as int;
                assert(self.roles@[n] == (RoleGrant { principal, role }));
                assert forall|p: Address, q: Role|
                    self.has_role_spec(p, q) <==> (old(self).has_role_spec(p, q) || (p == principal
                        && q == role)) by {
                    if old(self).has_role_spec(p, q) {
                        let k = choose|k: int|
                            0 <= k < old(self).roles@.len() && old(self).roles@[k] == (RoleGrant {
                                principal: p,
                                role: q,
                            });
                        assert(self.roles@[k] == (RoleGrant { principal: p, role: q }));
                    }
                    if self.has_role_spec(p, q) {
                        let k = choose|k: int|
                            0 <= k < self.roles@.len() && self.roles@[k] == (RoleGrant {
                                principal: p,
                                role: q,
                            });
                        if k < n {
                            assert(old(self).roles@[k] == (RoleGrant { principal: p, role: q }));
                        }
                    }
                }
            }
        }
        Ok(())
    }

    /// Removes `role` from `principal`; revoking an absent grant is a
    /// no-op. Only an Admin may revoke.
    pub fn revoke_role(&mut self, caller: Address, principal: Address, role: Role) -> (r: Result<
        (),
        ContractError,
    >)
        requires
            old(self).wf(),
        ensures
            final(self).wf(),
            !old(self).has_role_spec(caller, Role::Admin) ==> r == Err::<(), ContractError>(
                ContractError::NotAuthorized,
            ) && *final(self) == *old(self),
            old(self).has_role_spec(caller, Role::Admin) ==> {
                &&& r == Ok::<(), ContractError>(())
                &&& forall|p: Address, q: Role|
                    final(self).has_role_spec(p, q) <==> (old(self).has_role_spec(p, q) && !(p
                        == principal && q == role))
                &&& final(self).merchants@ == old(self).merchants@
                &&& final(self).invoices@ == old(self).invoices@
                &&& final(self).fees@ == old(self).fees@
            },
    {
        if !self.has_role(caller, Role::Admin) {
            return Err(ContractError::NotAuthorized);
        }
        let mut i: usize = 0;
        while i < self.roles.len()
            invariant
                i <= self.roles.len(),
                *self == *old(self),
                old(self).wf(),
                old(self).has_role_spec(caller, Role::Admin),
                forall|j: int| 0 <= j < i ==> self.roles@[j] != (RoleGrant { principal, role }),
            decreases self.roles.len() - i,
        {
            if self.roles[i].principal == principal && self.roles[i].role == role {
                proof {
                    assert(self.roles@[i as int] == (RoleGrant { principal, role }));
                }
                self.roles.remove(i);
                proof {
                    let n: int = old(self).roles@.len() as int;
                    let iv = i as int;
                    let g = RoleGrant { principal, role };
                    assert(old(self).roles@[iv] == g);
                    assert forall|a: int, b: int| 0 <= a < b < self.roles@.len() implies #[trigger] self.roles@[a]
                        != #[trigger] self.roles@[b] by {
                        let a0: int = if a < iv {
                            a
                        } else {
                            a + 1
                        };
                        let b0: int = if b < iv {
                            b
                        } else {
                            b + 1
                        };
                        assert(self.roles@[a] == old(self).roles@[a0]);
                        assert(self.roles@[b] == old(self).roles@[b0]);
                        assert(old(self).roles@[a0] != old(self).roles@[b0]);
                    }
                    assert forall|p: Address, q: Role|
                        self.has_role_spec(p, q) <==> (old(self).has_role_spec(p, q) && !(p
                            == principal && q == role)) by {
                        let g2 = RoleGrant { principal: p, role: q };
                        if self.has_role_spec(p, q) {
                            let k = choose|k: int|
                                0 <= k < self.roles@.len() && self.roles@[k] == (RoleGrant {
                                    principal: p,
                                    role: q,
                                });
                            if k < iv {
                                assert(old(self).roles@[k] == g2);
                                assert(old(self).roles@[k] != old(self).roles@[iv]);
                            } else {
                                assert(old(self).roles@[k + 1] == g2);
                                assert(old(self).roles@[iv] != old(self).roles@[k + 1]);
                            }
                            // the removed grant occurs only at position iv, so g2 != g
                            assert(g2 != g);
                        }
                        if old(self).has_role_spec(p, q) && g2 != g {
                            let k = choose|k: int|
                                0 <= k < old(self).roles@.len() && old(self).roles@[k]
                                    == (RoleGrant { principal: p, role: q });
                            assert(k != iv);
                            if k < iv {
                                assert(self.roles@[k] == g2);
                            } else {
                                assert(self.roles@[k - 1] == g2);
                            }
                        }
                    }
                }
                return Ok(());
            }
            i += 1;
        }
        Ok(())
    }

    /// An address is a merchant when some record carries it.
    pub open spec fn is_merchant_spec(self, address: Address) -> bool {
        exists|i: int|
            0 <= i < self.merchants@.len() && (#[trigger] self.merchants@[i]).address == address
    }

    /// The position of the merchant record carrying `address`; meaningful
    /// only when `is_merchant_spec` holds (addresses are unique under `wf`).
    pub open spec fn merchant_ix(self, address: Address) -> int {
        choose|i: int|
            0 <= i < self.merchants@.len() && (#[trigger] self.merchants@[i]).address == address
    }

    /// The id of the merchant registered under `address`.
    pub open spec fn merchant_id_spec(self, address: Address) -> u64 {
        self.merchants@[self.merchant_ix(address)].id
    }

    /// Pure reverse-index lookup; never fails.
    pub fn is_merchant(&self, address: Address) -> (r: bool)
        ensures
            r == self.is_merchant_spec(address),
    {
        let mut i: usize = 0;
        while i < self.merchants.len()
            invariant
                i <= self.merchants.len(),
                forall|j: int| 0 <= j < i ==> (#[trigger] self.merchants@[j]).address != address,
            decreases self.merchants.len() - i,
        {
            if self.merchants[i].address == address {
                return true;
            }
            i += 1;
        }
        false
    }

    /// Resolves an address to its merchant id through the reverse index.
    fn find_merchant_id(&self, address: Address) -> (r: Option<u64>)
        requires
            self.wf(),
        ensures
            match r {
                Some(id) => self.is_merchant_spec(address) && id == self.merchant_id_spec(address)
                    && 1 <= id <= self.merchants@.len() && self.merchants@[id - 1].address
                    == address,
                None => !self.is_merchant_spec(address),
            },
    {
        let mut i: usize = 0;
        while i < self.merchants.len()
            invariant
                i <= self.merchants.len(),
                self.wf(),
                forall|j: int| 0 <= j < i ==> (#[trigger] self.merchants@[j]).address != address,
            decreases self.merchants.len() - i,
        {
            if self.merchants[i].address == address {
                proof {
                    let k = self.merchant_ix(address);
                    if k != i as int {
                        assert(self.merchants@[k].address == self.merchants@[i as int].address);
                        assert(false);
                    }
                }
                return Some(self.merchants[i].id);
            }
            i += 1;
        }
        None
    }

    /// Merchant lookup by id; the id is the 1-based record position.
    pub fn get_merchant(&self, merchant_id: u64) -> (r: Result<Merchant, ContractError>)
        ensures
            1 <= merchant_id <= self.merchants@.len() ==> r == Ok::<Merchant, ContractError>(
                self.merchants@[merchant_id - 1],
            ),
            !(1 <= merchant_id <= self.merchants@.len()) ==> r == Err::<Merchant, ContractError>(
                ContractError::MerchantNotFound,
            ),
    {
        if 1 <= merchant_id && merchant_id <= self.merchants.len() as u64 {
            Ok(self.merchants[(merchant_id - 1) as usize])
        } else {
            Err(ContractError::MerchantNotFound)
        }
    }

    /// Registers `merchant_address` under the next sequential id. The
    /// caller must be that address itself or hold Admin; an address
    /// already registered is rejected, and no id is consumed by a failed
    /// attempt.
    pub fn register(
        &mut self,
        caller: Address,
        merchant_address: Address,
        manager_address: Address,
    ) -> (r: Result<u64, ContractError>)
        requires
            old(self).wf(),
            old(self).merchants@.len() < u64::MAX,
        ensures
            final(self).wf(),
            !(caller == merchant_address || old(self).has_role_spec(caller, Role::Admin)) ==> r
                == Err::<u64, ContractError>(ContractError::NotAuthorized) && *final(self) == *old(
                self,
            ),
            (caller == merchant_address || old(self).has_role_spec(caller, Role::Admin)) && old(
                self,
            ).is_merchant_spec(merchant_address) ==> r == Err::<u64, ContractError>(
                ContractError::AlreadyRegistered,
            ) && *final(self) == *old(self),
            (caller == merchant_address || old(self).has_role_spec(caller, Role::Admin)) && !old(
                self,
            ).is_merchant_spec(merchant_address) ==> {
                &&& r == Ok::<u64, ContractError>((old(self).merchants@.len() + 1) as u64)
                &&& final(self).merchants@ == old(self).merchants@.push(
                    (Merchant {
                        id: (old(self).merchants@.len() + 1) as u64,
                        address: merchant_address,
                        manager: manager_address,
                    }),
                )
                &&& final(self).roles@ == old(self).roles@
                &&& final(self).invoices@ == old(self).invoices@
                &&& final(self).fees@ == old(self).fees@
            },
    {
        let authorized = caller == merchant_address || self.has_role(caller, Role::Admin);
        if !authorized {
            return Err(ContractError::NotAuthorized);
        }
        if self.is_merchant(merchant_address) {
            return Err(ContractError::AlreadyRegistered);
        }
        let id = self.merchants.len() as u64 + 1;
        self.merchants.push(
            Merchant { id, address: merchant_address, manager: manager_address },
        );
        Ok(id)
    }

    /// A token has a scheduled fee when the schedule holds an entry for it.
    pub open spec fn has_fee(self, token: Address) -> bool {
        exists|i: int| 0 <= i < self.fees@.len() && (#[trigger] self.fees@[i]).token == token
    }

    /// The position of the fee entry for `token`; meaningful only when
    /// `has_fee` holds (tokens are unique in the schedule under `wf`).
    pub open spec fn fee_ix(self, token: Address) -> int {
        choose|i: int| 0 <= i < self.fees@.len() && (#[trigger] self.fees@[i]).token == token
    }

    /// The fee charged at settlement for `token`. An absent entry means a
    /// zero fee by policy, not an error.
    pub open spec fn fee_for(self, token: Address) -> i128 {
        if self.has_fee(token) {
            self.fees@[self.fee_ix(token)].fee
        } else {
            0
        }
    }

    /// Current scheduled fee for `token`; zero when no entry is set.
    pub fn get_fee(&self, token: Address) -> (r: i128)
        requires
            self.wf(),
        ensures
            r == self.fee_for(token),
            r >= 0,
    {
        let mut i: usize = 0;
        while i < self.fees.len()
            invariant
                i <= self.fees.len(),
                self.wf(),
                forall|j: int| 0 <= j < i ==> (#[trigger] self.fees@[j]).token != token,
            decreases self.fees.len() - i,
        {
            if self.fees[i].token == token {
                proof {
                    let k = self.fee_ix(token);
                    if k != i as int {
                        assert(self.fees@[k].token == self.fees@[i as int].token);
                        assert(false);
                    }
                }
                return self.fees[i].fee;
            }
            i += 1;
        }
        0
    }

    /// Sets (or replaces) the scheduled fee for `token`. Only an Admin may
    /// configure fees, and a negative fee is rejected.
    pub fn set_fee(&mut self, caller: Address, token: Address, fee: i128) -> (r: Result<
        (),
        ContractError,
    >)
        requires
            old(self).wf(),
        ensures
            final(self).wf(),
            !old(self).has_role_spec(caller, Role::Admin) ==> r == Err::<(), ContractError>(
                ContractError::NotAuthorized,
            ) && *final(self) == *old(self),
            old(self).has_role_spec(caller, Role::Admin) && fee < 0 ==> r == Err::<
                (),
                ContractError,
            >(ContractError::InvalidAmount) && *final(self) == *old(self),
            old(self).has_role_spec(caller, Role::Admin) && fee >= 0 ==> {
                &&& r == Ok::<(), ContractError>(())
                &&& final(self).fee_for(token) == fee
                &&& forall|t: Address|
                    t != token ==> final(self).fee_for(t) == old(self).fee_for(t)
                &&& final(self).roles@ == old(self).roles@
                &&& final(self).merchants@ == old(self).merchants@
                &&& final(self).invoices@ == old(self).invoices@
            },
    {
        if !self.has_role(caller, Role::Admin) {
            return Err(ContractError::NotAuthorized);
        }
        if fee < 0 {
            return Err(ContractError::InvalidAmount);
        }
        let mut i: usize = 0;
        while i < self.fees.len()
            invariant
                i <= self.fees.len(),
                *self == *old(self),
                old(self).wf(),
                old(self).has_role_spec(caller, Role::Admin),
                fee >= 0,
                forall|j: int| 0 <= j < i ==> (#[trigger] self.fees@[j]).token != token,
            decreases self.fees.len() - i,
        {
            if self.fees[i].token == token {
                self.fees.set(i, FeeEntry { token, fee });
                proof {
                    let iv = i as int;
                    assert(self.fees@[iv].token == token);
                    Self::lemma_fee_points(*old(self), *self, token, fee, iv);
                }
                return Ok(());
            }
            i += 1;
        }
        let n: usize = self.fees.len();
        self.fees.push(FeeEntry { token, fee });
        proof {
            assert(self.fees@[n as int].token == token);
            Self::lemma_fee_points(*old(self), *self, token, fee, n as int);
        }
        Ok(())
    }

    /// The error a cancellation attempt reports, or `None` when it
    /// succeeds; cancellation is gated exactly as settlement is.
    pub open spec fn cancel_error(self, caller: Address, invoice_id: u64) -> Option<
        ContractError,
    > {
        if !self.is_admin_or_manager(caller) {
            Some(ContractError::NotAuthorized)
        } else if !(1 <= invoice_id <= self.invoices@.len()) {
            Some(ContractError::InvoiceNotFound)
        } else if self.invoices@[invoice_id - 1].status != InvoiceStatus::Pending {
            Some(ContractError::InvalidInvoiceStatus)
        } else {
            None
        }
    }

    /// The invoice as it stands after cancellation: status `Cancelled`,
    /// everything else untouched.
    pub open spec fn cancelled_invoice(inv: Invoice) -> Invoice {
        Invoice {
            id: inv.id,
            merchant_id: inv.merchant_id,
            description: inv.description,
            amount: inv.amount,
            token: inv.token,
            status: InvoiceStatus::Cancelled,
            payer: inv.payer,
            date_created: inv.date_created,
            date_paid: inv.date_paid,
        }
    }

    /// Moves a `Pending` invoice to the terminal `Cancelled` state, under
    /// the same authorization rule as settlement. No transfer and no fee
    /// are involved; a non-`Pending` invoice is rejected.
    pub fn cancel_invoice(&mut self, caller: Address, invoice_id: u64) -> (r: Result<
        Invoice,
        ContractError,
    >)
        requires
            old(self).wf(),
        ensures
            final(self).wf(),
            match old(self).cancel_error(caller, invoice_id) {
                Some(e) => r == Err::<Invoice, ContractError>(e) && *final(self) == *old(self),
                None => {
                    let cancelled = Self::cancelled_invoice(
                        old(self).invoices@[invoice_id - 1],
                    );
                    &&& r == Ok::<Invoice, ContractError>(cancelled)
                    &&& final(self).invoices@ == old(self).invoices@.update(
                        invoice_id - 1,
                        cancelled,
                    )
                    &&& final(self).roles@ == old(self).roles@
                    &&& final(self).merchants@ == old(self).merchants@
                    &&& final(self).fees@ == old(self).fees@
                },
            },
    {
        let has_admin_role = self.has_role(caller, Role::Admin);
        let has_manager_role = self.has_role(caller, Role::Manager);
        if !has_admin_role && !has_manager_role {
            return Err(ContractError::NotAuthorized);
        }
        if !(1 <= invoice_id && invoice_id <= self.invoices.len() as u64) {
            return Err(ContractError::InvoiceNotFound);
        }
        let ix = (invoice_id - 1) as usize;
        let mut invoice = self.invoices[ix].clone();
        if invoice.status != InvoiceStatus::Pending {
            return Err(ContractError::InvalidInvoiceStatus);
        }
        invoice.status = InvoiceStatus::Cancelled;
        let cancelled = invoice.clone();
        self.invoices.set(ix, invoice);
        Ok(cancelled)
    }

    /// Law: invoice ids are exactly the 1-based record positions, so N
    /// sequential successful creations return the ids 1..=N in call
    /// order, unique and without gaps; by `create_invoice`'s contract a
    /// failed creation leaves the records unchanged and consumes no id.
    pub proof fn lemma_invoice_ids_sequential(l: Ledger)
        requires
            l.wf(),
        ensures
            forall|i: int| 0 <= i < l.invoices@.len() ==> (#[trigger] l.invoices@[i]).id == i + 1,
            forall|i: int, j: int|
                0 <= i < l.invoices@.len() && 0 <= j < l.invoices@.len() && i != j ==> (
                #[trigger] l.invoices@[i]).id != (#[trigger] l.invoices@[j]).id,
    {
    }

    /// Law: settlement is not idempotent. After an invoice is settled, a
    /// second settlement attempt on the same id by any authorized caller
    /// reports `InvalidInvoiceStatus`; by `pay_invoice_admin`'s contract
    /// that attempt changes nothing and yields no transfer and no event.
    pub proof fn lemma_no_double_payment(
        pre: Ledger,
        post: Ledger,
        caller: Address,
        invoice_id: u64,
        now: u64,
        caller2: Address,
    )
        requires
            pre.wf(),
            pre.pay_error(caller, invoice_id) is None,
            post.invoices@ == pre.invoices@.update(
                invoice_id - 1,
                Ledger::paid_invoice(pre.invoices@[invoice_id - 1], caller, now),
            ),
            post.roles@ == pre.roles@,
            post.is_admin_or_manager(caller2),
        ensures
            post.pay_error(caller2, invoice_id) == Some(ContractError::InvalidInvoiceStatus),
    {
        assert(post.invoices@[invoice_id - 1].status == InvoiceStatus::Paid);
    }

    /// Law: a merchant filter naming an address that is not a registered
    /// merchant matches no invoice at all, so the filtered sequence is
    /// empty.
    pub proof fn lemma_filter_unregistered_merchant_empty(
        l: Ledger,
        s: Seq<Invoice>,
        f: InvoiceFilter,
    )
        requires
            f.merchant is Some,
            !l.is_merchant_spec(f.merchant->0),
        ensures
            l.filtered_invoices(s, f).len() == 0,
        decreases s.len(),
    {
        if s.len() > 0 {
            assert(!l.invoice_matches(s.last(), f));
            Self::lemma_filter_unregistered_merchant_empty(l, s.drop_last(), f);
        }
    }

    /// Law: a filter with only the two amount bounds set matches exactly
    /// the invoices whose amount lies in the inclusive range.
    pub proof fn lemma_filter_amount_range(l: Ledger, inv: Invoice, mn: i128, mx: i128)
        ensures
            l.invoice_matches(
                inv,
                (InvoiceFilter {
                    status: None,
                    merchant: None,
                    min_amount: Some(mn),
                    max_amount: Some(mx),
                }),
            ) <==> (mn <= inv.amount && inv.amount <= mx),
    {
    }

    /// After writing the entry for `token` at position `iv` (all other
    /// entries unchanged), the schedule maps `token` to `fee` and every
    /// other token to what it mapped to before.
    proof fn lemma_fee_points(pre: Ledger, post: Ledger, token: Address, fee: i128, iv: int)
        requires
            pre.wf(),
            0 <= iv < post.fees@.len(),
            iv <= pre.fees@.len(),
            post.fees@[iv] == (FeeEntry { token, fee }),
            iv < pre.fees@.len() ==> post.fees@.len() == pre.fees@.len(),
            iv == pre.fees@.len() ==> post.fees@.len() == pre.fees@.len() + 1,
            forall|j: int|
                0 <= j < post.fees@.len() && j != iv ==> #[trigger] post.fees@[j] == pre.fees@[j],
            forall|j: int|
                0 <= j < pre.fees@.len() && j != iv ==> (#[trigger] pre.fees@[j]).token != token,
            iv < pre.fees@.len() ==> pre.fees@[iv].token == token,
            fee >= 0,
        ensures
            forall|i: int, j: int|
                0 <= i < j < post.fees@.len() ==> (#[trigger] post.fees@[i]).token
                    != (#[trigger] post.fees@[j]).token,
            forall|i: int| 0 <= i < post.fees@.len() ==> (#[trigger] post.fees@[i]).fee >= 0,
            post.fee_for(token) == fee,
            forall|t: Address| t != token ==> post.fee_for(t) == pre.fee_for(t),
    {
        assert forall|i: int, j: int| 0 <= i < j < post.fees@.len() implies (
        #[trigger] post.fees@[i]).token != (#[trigger] post.fees@[j]).token by {
            if i != iv && j != iv {
                assert(pre.fees@[i].token != pre.fees@[j].token);
            }
        }
        let k = post.fee_ix(token);
        assert(post.has_fee(token));
        assert(post.fees@[k].token == token);
        if k != iv {
            assert(false);
        }
        assert forall|t: Address| t != token implies post.fee_for(t) == pre.fee_for(t) by {
            if post.has_fee(t) {
                let k2 = post.fee_ix(t);
                assert(post.fees@[k2].token == t);
                assert(k2 != iv);
                assert(pre.fees@[k2].token == t);
                assert(pre.has_fee(t));
                let k3 = pre.fee_ix(t);
                assert(pre.fees@[k3].token == t);
                if k3 != k2 {
                    if k3 != iv {
                        assert(post.fees@[k3].token == t);
                        assert(false);
                    } else {
                        assert(false);
                    }
                }
            } else {
                if pre.has_fee(t) {
                    let k3 = pre.fee_ix(t);
                    assert(pre.fees@[k3].token == t);
                    assert(k3 != iv);
                    assert(post.fees@[k3].token == t);
                    assert(false);
                }
            }
        }
    }

    /// Creates a `Pending` invoice for the calling merchant under the next
    /// sequential invoice id. `merchant_address` is the authenticated
    /// caller; `now` is the host clock's timestamp. A failed attempt
    /// consumes no id.
    pub fn create_invoice(
        &mut self,
        merchant_address: Address,
        description: String,
        amount: i128,
        token: Address,
        now: u64,
    ) -> (r: Result<u64, ContractError>)
        requires
            old(self).wf(),
            old(self).invoices@.len() < u64::MAX,
        ensures
            final(self).wf(),
            amount <= 0 ==> r == Err::<u64, ContractError>(ContractError::InvalidAmount)
                && *final(self) == *old(self),
            amount > 0 && !old(self).is_merchant_spec(merchant_address) ==> r == Err::<
                u64,
                ContractError,
            >(ContractError::NotAuthorized) && *final(self) == *old(self),
            amount > 0 && old(self).is_merchant_spec(merchant_address) ==> {
                &&& r == Ok::<u64, ContractError>((old(self).invoices@.len() + 1) as u64)
                &&& final(self).invoices@ == old(self).invoices@.push(
                    (Invoice {
                        id: (old(self).invoices@.len() + 1) as u64,
                        merchant_id: old(self).merchant_id_spec(merchant_address),
                        description: description,
                        amount: amount,
                        token: token,
                        status: InvoiceStatus::Pending,
                        payer: None,
                        date_created: now,
                        date_paid: None,
                    }),
                )
                &&& final(self).roles@ == old(self).roles@
                &&& final(self).merchants@ == old(self).merchants@
                &&& final(self).fees@ == old(self).fees@
            },
    {
        if amount <= 0 {
            return Err(ContractError::InvalidAmount);
        }
        let merchant_id = match self.find_merchant_id(merchant_address) {
            Some(id) => id,
            None => {
                return Err(ContractError::NotAuthorized);
            },
        };
        let new_id = self.invoices.len() as u64 + 1;
        let invoice = Invoice {
            id: new_id,
            merchant_id,
            description,
            amount,
            token,
            status: InvoiceStatus::Pending,
            payer: None,
            date_created: now,
            date_paid: None,
        };
        self.invoices.push(invoice);
        Ok(new_id)
    }

    /// Invoice lookup by id; the id is the 1-based record position.
    pub fn get_invoice(&self, invoice_id: u64) -> (r: Result<Invoice, ContractError>)
        ensures
            1 <= invoice_id <= self.invoices@.len() ==> r == Ok::<Invoice, ContractError>(
                self.invoices@[invoice_id - 1],
            ),
            !(1 <= invoice_id <= self.invoices@.len()) ==> r == Err::<Invoice, ContractError>(
                ContractError::InvoiceNotFound,
            ),
    {
        if 1 <= invoice_id && invoice_id <= self.invoices.len() as u64 {
            Ok(self.invoices[(invoice_id - 1) as usize].clone())
        } else {
            Err(ContractError::InvoiceNotFound)
        }
    }

    /// Whether an invoice passes every predicate of the filter. An unset
    /// predicate matches everything; the merchant predicate resolves the
    /// address through the registry and matches nothing when the address
    /// is not a registered merchant; the amount bounds are inclusive.
    pub open spec fn invoice_matches(self, inv: Invoice, f: InvoiceFilter) -> bool {
        &&& match f.status {
            Some(s) => inv.status == s,
            None => true,
        }
        &&& match f.merchant {
            Some(m) => exists|i: int|
                0 <= i < self.merchants@.len() && (#[trigger] self.merchants@[i]).address == m
                    && inv.merchant_id == self.merchants@[i].id,
            None => true,
        }
        &&& match f.min_amount {
            Some(mn) => inv.amount >= mn,
            None => true,
        }
        &&& match f.max_amount {
            Some(mx) => inv.amount <= mx,
            None => true,
        }
    }

    /// The subsequence of `s` that passes the filter, in order.
    pub open spec fn filtered_invoices(self, s: Seq<Invoice>, f: InvoiceFilter) -> Seq<Invoice>
        decreases s.len(),
    {
        if s.len() == 0 {
            Seq::empty()
        } else if self.invoice_matches(s.last(), f) {
            self.filtered_invoices(s.drop_last(), f).push(s.last())
        } else {
            self.filtered_invoices(s.drop_last(), f)
        }
    }

    /// Scans all invoices in ascending id order and returns those passing
    /// the filter, preserving that order. An empty filter matches all.
    pub fn get_invoices(&self, filter: InvoiceFilter) -> (r: Vec<Invoice>)
        requires
            self.wf(),
        ensures
            r@ == self.filtered_invoices(self.invoices@, filter),
    {
        // Resolve the merchant predicate once: None = no predicate,
        // Some(None) = unregistered address (matches nothing),
        // Some(Some(id)) = match on that merchant id.
        let resolved: Option<Option<u64>> = match filter.merchant {
            Some(m) => Some(self.find_merchant_id(m)),
            None => None,
        };
        let mut out: Vec<Invoice> = Vec::new();
        let mut i: usize = 0;
        while i < self.invoices.len()
            invariant
                i <= self.invoices.len(),
                self.wf(),
                match filter.merchant {
                    Some(m) => match resolved {
                        Some(Some(id)) => self.is_merchant_spec(m) && id
                            == self.merchant_id_spec(m) && 1 <= id <= self.merchants@.len()
                            && self.merchants@[id - 1].address == m,
                        Some(None) => !self.is_merchant_spec(m),
                        None => false,
                    },
                    None => resolved is None,
                },
                out@ == self.filtered_invoices(self.invoices@.take(i as int), filter),
            decreases self.invoices.len() - i,
        {
            let inv = &self.invoices[i];
            let mut keep = true;
            match filter.status {
                Some(s) => {
                    if inv.status != s {
                        keep = false;
                    }
                },
                None => {},
            }
            match resolved {
                Some(Some(id)) => {
                    if inv.merchant_id != id {
                        keep = false;
                    }
                },
                Some(None) => {
                    keep = false;
                },
                None => {},
            }
            match filter.min_amount {
                Some(mn) => {
                    if inv.amount < mn {
                        keep = false;
                    }
                },
                None => {},
            }
            match filter.max_amount {
                Some(mx) => {
                    if inv.amount > mx {
                        keep = false;
                    }
                },
                None => {},
            }
            proof {
                let iv = i as int;
                if filter.merchant is Some {
                    let m = filter.merchant->0;
                    if self.is_merchant_spec(m) {
                        let id = self.merchant_id_spec(m);
                        // the registered address is unique, so the merchant
                        // predicate holds exactly when the ids agree
                        assert forall|k: int|
                            0 <= k < self.merchants@.len() && (#[trigger] self.merchants@[k]).address
                                == m implies self.merchants@[k].id == id by {
                            let kx = self.merchant_ix(m);
                            if k != kx {
                                assert(self.merchants@[k].address
                                    == self.merchants@[kx].address);
                                assert(false);
                            }
                        }
                        if self.invoices@[iv].merchant_id == id {
                            assert(self.merchants@[id - 1].address == m
                                && self.invoices@[iv].merchant_id == self.merchants@[id - 1].id);
                        }
                    }
                }
                assert(keep == self.invoice_matches(self.invoices@[iv], filter));
            }
            if keep {
                out.push(self.invoices[i].clone());
            }
            proof {
                let iv = i as int;
                assert(self.invoices@.take(iv + 1).drop_last() =~= self.invoices@.take(iv));
                assert(self.invoices@.take(iv + 1).last() == self.invoices@[iv]);
            }
            i += 1;
        }
        proof {
            assert(self.invoices@.take(self.invoices@.len() as int) =~= self.invoices@);
        }
        out
    }

    /// Settlement is gated on the Admin or Manager role.
    pub open spec fn is_admin_or_manager(self, caller: Address) -> bool {
        self.has_role_spec(caller, Role::Admin) || self.has_role_spec(caller, Role::Manager)
    }

    /// The error a settlement attempt reports, or `None` when it succeeds:
    /// the checks run in this order, and the first failing one decides.
    pub open spec fn pay_error(self, caller: Address, invoice_id: u64) -> Option<ContractError> {
        if !self.is_admin_or_manager(caller) {
            Some(ContractError::NotAuthorized)
        } else if !(1 <= invoice_id <= self.invoices@.len()) {
            Some(ContractError::InvoiceNotFound)
        } else if self.invoices@[invoice_id - 1].status != InvoiceStatus::Pending {
            Some(ContractError::InvalidInvoiceStatus)
        } else if self.fee_for(self.invoices@[invoice_id - 1].token) > self.invoices@[invoice_id
            - 1].amount {
            Some(ContractError::InvalidFeeConfiguration)
        } else {
            None
        }
    }

    /// The invoice as it stands after settlement: status `Paid`, the payer
    /// and payment date set, everything else untouched.
    pub open spec fn paid_invoice(inv: Invoice, payer: Address, now: u64) -> Invoice {
        Invoice {
            id: inv.id,
            merchant_id: inv.merchant_id,
            description: inv.description,
            amount: inv.amount,
            token: inv.token,
            status: InvoiceStatus::Paid,
            payer: Some(payer),
            date_created: inv.date_created,
            date_paid: Some(now),
        }
    }

    /// Settles a `Pending` invoice: deducts the scheduled fee from the
    /// invoice amount, marks the invoice `Paid` by `caller` at `now`, and
    /// hands back the transfer of amount minus fee to the merchant that
    /// the host must perform. The host commits the new state only if that
    /// transfer succeeds; on any error the state is unchanged and no
    /// transfer or event is produced. Settling a non-`Pending` invoice is
    /// rejected, never a no-op.
    pub fn pay_invoice_admin(&mut self, caller: Address, invoice_id: u64, now: u64) -> (r: Result<
        Settlement,
        ContractError,
    >)
        requires
            old(self).wf(),
        ensures
            final(self).wf(),
            match old(self).pay_error(caller, invoice_id) {
                Some(e) => r == Err::<Settlement, ContractError>(e) && *final(self) == *old(self),
                None => {
                    let inv = old(self).invoices@[invoice_id - 1];
                    let fee = old(self).fee_for(inv.token);
                    let paid = Self::paid_invoice(inv, caller, now);
                    let merchant = old(self).merchants@[inv.merchant_id - 1];
                    &&& r == Ok::<Settlement, ContractError>(
                        (Settlement {
                            invoice: paid,
                            transfer: (TokenTransfer {
                                token: inv.token,
                                to: merchant.address,
                                amount: (inv.amount - fee) as i128,
                            }),
                            event: (InvoicePaidEvent {
                                invoice_id,
                                merchant_id: inv.merchant_id,
                                payer: caller,
                                amount: inv.amount,
                                fee,
                                token: inv.token,
                                timestamp: now,
                            }),
                        }),
                    )
                    &&& final(self).invoices@ == old(self).invoices@.update(
                        invoice_id - 1,
                        paid,
                    )
                    &&& final(self).roles@ == old(self).roles@
                    &&& final(self).merchants@ == old(self).merchants@
                    &&& final(self).fees@ == old(self).fees@
                },
            },
    {
        let has_admin_role = self.has_role(caller, Role::Admin);
        let has_manager_role = self.has_role(caller, Role::Manager);
        if !has_admin_role && !has_manager_role {
            return Err(ContractError::NotAuthorized);
        }
        if !(1 <= invoice_id && invoice_id <= self.invoices.len() as u64) {
            return Err(ContractError::InvoiceNotFound);
        }
        let ix = (invoice_id - 1) as usize;
        let mut invoice = self.invoices[ix].clone();
        if invoice.status != InvoiceStatus::Pending {
            return Err(ContractError::InvalidInvoiceStatus);
        }
        let fee = self.get_fee(invoice.token);
        if fee > invoice.amount {
            return Err(ContractError::InvalidFeeConfiguration);
        }
        let merchant_amount = invoice.amount - fee;
        let merchant = match self.get_merchant(invoice.merchant_id) {
            Ok(m) => m,
            Err(_) => {
                // unreachable: well-formedness ties every invoice to a
                // registered merchant, and merchant records are never removed
                return Err(ContractError::MerchantNotFound);
            },
        };
        invoice.status = InvoiceStatus::Paid;
        invoice.payer = Some(caller);
        invoice.date_paid = Some(now);
        let settlement = Settlement {
            invoice: invoice.clone(),
            transfer: TokenTransfer { token: invoice.token, to: merchant.address, amount: merchant_amount },
            event: InvoicePaidEvent {
                invoice_id,
                merchant_id: invoice.merchant_id,
                payer: caller,
                amount: invoice.amount,
                fee,
                token: invoice.token,
                timestamp: now,
            },
        };
        self.invoices.set(ix, invoice);
        Ok(settlement)
    }

    /// Pure role query; never fails.
    pub fn has_role(&self, principal: Address, role: Role) -> (r: bool)
        ensures
            r == self.has_role_spec(principal, role),
    {
        let mut i: usize = 0;
        while i < self.roles.len()
            invariant
                i <= self.roles.len(),
                forall|j: int|
                    0 <= j < i ==> self.roles@[j] != (RoleGrant { principal, role }),
            decreases self.roles.len() - i,
        {
            if self.roles[i].principal == principal && self.roles[i].role == role {
                assert(self.roles@[i as int] == (RoleGrant { principal, role }));
                return true;
            }
            i += 1;
        }
        false
    }
}

} // verus!
