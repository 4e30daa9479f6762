use vstd::prelude::*;

verus! {

/// An authenticated principal (an account address). Opaque to the ledger:
/// it is only stored and compared for equality. The host's authentication
/// primitive vouches that the caller passed to an operation authorized it.
#[derive(Clone, Copy, PartialEq, Eq, Structural, Debug)]
pub struct Address {
    pub id: u64,
}

/// A role a principal may hold; membership gates the mutating operations.
#[derive(Clone, Copy, PartialEq, Eq, Structural, Debug)]
pub enum Role {
    Admin,
    Manager,
    Merchant,
}

/// One (principal, role) membership fact.
#[derive(Clone, Copy, PartialEq, Eq, Structural, Debug)]
pub struct RoleGrant {
    pub principal: Address,
    pub role: Role,
}

/// A registered merchant. The id is assigned sequentially from 1 and never
/// changes; the record is looked up by id or, in reverse, by address.
#[derive(Clone, Copy, PartialEq, Eq, Structural, Debug)]
pub struct Merchant {
    pub id: u64,
    pub address: Address,
    pub manager: Address,
}

/// Lifecycle state of an invoice. `Pending` is the only non-terminal state.
#[derive(Clone, Copy, PartialEq, Eq, Structural, Debug)]
pub enum InvoiceStatus {
    Pending,
    Paid,
    Cancelled,
}

/// A request for payment of a fixed amount in one token. The amount is
/// fixed at creation; payer and date_paid are set exactly once, atomically
/// with the transition to `Paid`.
#[derive(Debug)]
pub struct Invoice {
    pub id: u64,
    pub merchant_id: u64,
    pub description: String,
    pub amount: i128,
    pub token: Address,
    pub status: InvoiceStatus,
    pub payer: Option<Address>,
    pub date_created: u64,
    pub date_paid: Option<u64>,
}

impl Clone for Invoice {
    fn clone(&self) -> (r: Self)
        ensures
            r == *self,
    {
        Invoice {
            id: self.id,
            merchant_id: self.merchant_id,
            description: self.description.clone(),
            amount: self.amount,
            token: self.token,
            status: self.status,
            payer: self.payer,
            date_created: self.date_created,
            date_paid: self.date_paid,
        }
    }
}

/// A conjunction of optional predicates on invoices; an unset field
/// matches everything. The amount bounds are inclusive.
#[derive(Clone, Copy, PartialEq, Eq, Structural, Debug)]
pub struct InvoiceFilter {
    pub status: Option<InvoiceStatus>,
    pub merchant: Option<Address>,
    pub min_amount: Option<i128>,
    pub max_amount: Option<i128>,
}

/// A per-token fee applied at settlement time, in the unit of the invoice
/// amount. A token without an entry carries a zero fee.
#[derive(Clone, Copy, PartialEq, Eq, Structural, Debug)]
pub struct FeeEntry {
    pub token: Address,
    pub fee: i128,
}

/// One tracked token of an account together with its available balance.
#[derive(Clone, Copy, PartialEq, Eq, Structural, Debug)]
pub struct TokenBalance {
    pub token: Address,
    pub balance: i128,
}

/// A token movement the host must perform out of the ledger's custody.
#[derive(Clone, Copy, PartialEq, Eq, Structural, Debug)]
pub struct TokenTransfer {
    pub token: Address,
    pub to: Address,
    pub amount: i128,
}

/// The notification emitted when an invoice is settled.
#[derive(Clone, Copy, PartialEq, Eq, Structural, Debug)]
pub struct InvoicePaidEvent {
    pub invoice_id: u64,
    pub merchant_id: u64,
    pub payer: Address,
    pub amount: i128,
    pub fee: i128,
    pub token: Address,
    pub timestamp: u64,
}

/// Everything a successful settlement produces: the updated invoice, the
/// transfer the host must perform, and the event to publish.
#[derive(Debug)]
pub struct Settlement {
    pub invoice: Invoice,
    pub transfer: TokenTransfer,
    pub event: InvoicePaidEvent,
}

} // verus!
