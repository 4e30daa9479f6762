use shade_ledger::errors::ContractError;
use shade_ledger::ledger::Ledger;
use shade_ledger::types::{Address, InvoiceFilter, InvoiceStatus, Role};

fn addr(id: u64) -> Address {
    Address { id }
}

/// A ledger with one admin (10) and one registered merchant (1, manager 2).
fn setup_ledger() -> (Ledger, Address, Address) {
    let admin = addr(10);
    let mut ledger = Ledger::new(admin);
    let merchant = addr(1);
    let id = ledger.register(merchant, merchant, addr(2)).unwrap();
    assert_eq!(id, 1);
    (ledger, admin, merchant)
}

fn empty_filter() -> InvoiceFilter {
    InvoiceFilter { status: None, merchant: None, min_amount: None, max_amount: None }
}

#[test]
fn roles_are_granted_and_revoked_by_admin_only() {
    let admin = addr(10);
    let mut ledger = Ledger::new(admin);
    let user = addr(20);

    assert!(!ledger.has_role(user, Role::Manager));
    ledger.grant_role(admin, user, Role::Manager).unwrap();
    assert!(ledger.has_role(user, Role::Manager));

    // granting twice keeps membership
    ledger.grant_role(admin, user, Role::Manager).unwrap();
    assert!(ledger.has_role(user, Role::Manager));

    // a non-admin may neither grant nor revoke
    assert_eq!(
        ledger.grant_role(user, user, Role::Admin),
        Err(ContractError::NotAuthorized)
    );
    assert_eq!(
        ledger.revoke_role(user, admin, Role::Admin),
        Err(ContractError::NotAuthorized)
    );

    ledger.revoke_role(admin, user, Role::Manager).unwrap();
    assert!(!ledger.has_role(user, Role::Manager));
}

#[test]
fn registration_assigns_sequential_ids_and_rejects_duplicates() {
    let admin = addr(10);
    let mut ledger = Ledger::new(admin);

    let first = ledger.register(addr(1), addr(1), addr(2)).unwrap();
    assert_eq!(first, 1);

    // the admin may register on behalf of another address
    let second = ledger.register(admin, addr(3), addr(4)).unwrap();
    assert_eq!(second, 2);

    // an unrelated caller may not
    assert_eq!(
        ledger.register(addr(5), addr(6), addr(7)),
        Err(ContractError::NotAuthorized)
    );

    // a registered address is rejected, and no id is consumed
    assert_eq!(
        ledger.register(addr(1), addr(1), addr(2)),
        Err(ContractError::AlreadyRegistered)
    );
    let third = ledger.register(addr(8), addr(8), addr(9)).unwrap();
    assert_eq!(third, 3);

    assert!(ledger.is_merchant(addr(1)));
    assert!(!ledger.is_merchant(addr(6)));

    let record = ledger.get_merchant(2).unwrap();
    assert_eq!(record.id, 2);
    assert_eq!(record.address, addr(3));
    assert_eq!(record.manager, addr(4));

    assert_eq!(ledger.get_merchant(4), Err(ContractError::MerchantNotFound));
    assert_eq!(ledger.get_merchant(0), Err(ContractError::MerchantNotFound));
}

#[test]
fn invoice_ids_are_sequential_and_failures_consume_none() {
    let (mut ledger, _admin, merchant) = setup_ledger();
    let token = addr(50);

    for expected in 1..=3u64 {
        let id = ledger
            .create_invoice(merchant, format!("invoice {}", expected), 100, token, 5)
            .unwrap();
        assert_eq!(id, expected);
    }

    // a rejected creation consumes no id
    assert_eq!(
        ledger.create_invoice(merchant, String::from("zero"), 0, token, 5),
        Err(ContractError::InvalidAmount)
    );
    assert_eq!(
        ledger.create_invoice(addr(42), String::from("stranger"), 100, token, 5),
        Err(ContractError::NotAuthorized)
    );

    let next = ledger.create_invoice(merchant, String::from("next"), 100, token, 5).unwrap();
    assert_eq!(next, 4);
}

#[test]
fn created_invoice_is_pending_and_readable() {
    let (mut ledger, _admin, merchant) = setup_ledger();
    let token = addr(50);

    let id = ledger
        .create_invoice(merchant, String::from("Consulting"), 2_500, token, 1_700_000_000)
        .unwrap();

    let invoice = ledger.get_invoice(id).unwrap();
    assert_eq!(invoice.id, 1);
    assert_eq!(invoice.merchant_id, 1);
    assert_eq!(invoice.description, "Consulting");
    assert_eq!(invoice.amount, 2_500);
    assert_eq!(invoice.token, token);
    assert_eq!(invoice.status, InvoiceStatus::Pending);
    assert_eq!(invoice.payer, None);
    assert_eq!(invoice.date_created, 1_700_000_000);
    assert_eq!(invoice.date_paid, None);

    assert_eq!(ledger.get_invoice(2).unwrap_err(), ContractError::InvoiceNotFound);
    assert_eq!(ledger.get_invoice(0).unwrap_err(), ContractError::InvoiceNotFound);
}

#[test]
fn settlement_deducts_the_scheduled_fee_exactly() {
    // Fee correctness: amount 100, fee 25: the merchant receives 75 and
    // the event records both numbers.
    let (mut ledger, admin, merchant) = setup_ledger();
    let token = addr(50);

    ledger.set_fee(admin, token, 25).unwrap();
    let id = ledger.create_invoice(merchant, String::from("A"), 100, token, 5).unwrap();

    let settlement = ledger.pay_invoice_admin(admin, id, 9).unwrap();
    assert_eq!(settlement.transfer.amount, 75);
    assert_eq!(settlement.transfer.to, merchant);
    assert_eq!(settlement.transfer.token, token);
    assert_eq!(settlement.event.amount, 100);
    assert_eq!(settlement.event.fee, 25);
    assert_eq!(settlement.event.invoice_id, id);
    assert_eq!(settlement.event.merchant_id, 1);
    assert_eq!(settlement.event.payer, admin);
    assert_eq!(settlement.event.timestamp, 9);
    assert_eq!(settlement.invoice.status, InvoiceStatus::Paid);
}

#[test]
fn settlement_with_unset_fee_transfers_the_full_amount() {
    // Scenario: invoice of 1,000,000 with no fee schedule entry: the
    // merchant receives the full amount and the recorded fee is 0.
    let (mut ledger, admin, merchant) = setup_ledger();
    let token = addr(50);

    let id = ledger
        .create_invoice(merchant, String::from("big"), 1_000_000, token, 100)
        .unwrap();
    assert_eq!(id, 1);

    let settlement = ledger.pay_invoice_admin(admin, id, 200).unwrap();
    assert_eq!(settlement.transfer.amount, 1_000_000);
    assert_eq!(settlement.event.fee, 0);
    assert_eq!(settlement.invoice.status, InvoiceStatus::Paid);
    assert_eq!(settlement.invoice.payer, Some(admin));
    assert_eq!(settlement.invoice.date_paid, Some(200));

    let stored = ledger.get_invoice(id).unwrap();
    assert_eq!(stored.status, InvoiceStatus::Paid);
}

#[test]
fn paying_twice_is_rejected_and_changes_nothing() {
    let (mut ledger, admin, merchant) = setup_ledger();
    let token = addr(50);

    let id = ledger.create_invoice(merchant, String::from("once"), 100, token, 5).unwrap();
    ledger.pay_invoice_admin(admin, id, 6).unwrap();

    let again = ledger.pay_invoice_admin(admin, id, 7);
    assert_eq!(again.unwrap_err(), ContractError::InvalidInvoiceStatus);

    // the stored record still carries the first settlement's data
    let stored = ledger.get_invoice(id).unwrap();
    assert_eq!(stored.status, InvoiceStatus::Paid);
    assert_eq!(stored.date_paid, Some(6));
}

#[test]
fn settlement_authorization_and_error_cases() {
    let (mut ledger, admin, merchant) = setup_ledger();
    let token = addr(50);
    let id = ledger.create_invoice(merchant, String::from("x"), 100, token, 5).unwrap();

    // neither admin nor manager
    assert_eq!(
        ledger.pay_invoice_admin(addr(999), id, 6).unwrap_err(),
        ContractError::NotAuthorized
    );

    // absent invoice
    assert_eq!(
        ledger.pay_invoice_admin(admin, 99, 6).unwrap_err(),
        ContractError::InvoiceNotFound
    );

    // a fee above the amount is a configuration fault
    ledger.set_fee(admin, token, 200).unwrap();
    assert_eq!(
        ledger.pay_invoice_admin(admin, id, 6).unwrap_err(),
        ContractError::InvalidFeeConfiguration
    );

    // a manager may settle
    ledger.set_fee(admin, token, 10).unwrap();
    let manager = addr(33);
    ledger.grant_role(admin, manager, Role::Manager).unwrap();
    let settlement = ledger.pay_invoice_admin(manager, id, 6).unwrap();
    assert_eq!(settlement.transfer.amount, 90);
    assert_eq!(settlement.event.payer, manager);
}

#[test]
fn cancellation_is_terminal_and_gated_like_settlement() {
    let (mut ledger, admin, merchant) = setup_ledger();
    let token = addr(50);
    let id = ledger.create_invoice(merchant, String::from("c"), 100, token, 5).unwrap();

    // the merchant itself holds no admin or manager role
    assert_eq!(
        ledger.cancel_invoice(merchant, id).unwrap_err(),
        ContractError::NotAuthorized
    );
    assert_eq!(
        ledger.cancel_invoice(admin, 99).unwrap_err(),
        ContractError::InvoiceNotFound
    );

    let cancelled = ledger.cancel_invoice(admin, id).unwrap();
    assert_eq!(cancelled.status, InvoiceStatus::Cancelled);
    assert_eq!(cancelled.payer, None);
    assert_eq!(cancelled.date_paid, None);

    // the state is terminal: neither settling nor cancelling again works
    assert_eq!(
        ledger.pay_invoice_admin(admin, id, 7).unwrap_err(),
        ContractError::InvalidInvoiceStatus
    );
    assert_eq!(
        ledger.cancel_invoice(admin, id).unwrap_err(),
        ContractError::InvalidInvoiceStatus
    );
    assert_eq!(ledger.get_invoice(id).unwrap().status, InvoiceStatus::Cancelled);
}

#[test]
fn fee_schedule_is_admin_gated_and_replaceable() {
    let (mut ledger, admin, _merchant) = setup_ledger();
    let token = addr(50);

    assert_eq!(ledger.get_fee(token), 0);
    assert_eq!(ledger.set_fee(addr(5), token, 1), Err(ContractError::NotAuthorized));
    assert_eq!(ledger.set_fee(admin, token, -1), Err(ContractError::InvalidAmount));

    ledger.set_fee(admin, token, 7).unwrap();
    assert_eq!(ledger.get_fee(token), 7);
    ledger.set_fee(admin, token, 9).unwrap();
    assert_eq!(ledger.get_fee(token), 9);
    assert_eq!(ledger.get_fee(addr(51)), 0);
}

#[test]
fn filter_on_unregistered_merchant_matches_nothing() {
    let (mut ledger, _admin, merchant) = setup_ledger();
    let token = addr(50);
    ledger.create_invoice(merchant, String::from("a"), 100, token, 5).unwrap();
    ledger.create_invoice(merchant, String::from("b"), 200, token, 5).unwrap();

    let mut filter = empty_filter();
    filter.merchant = Some(addr(4242));
    let none = ledger.get_invoices(filter);
    assert_eq!(none.len(), 0);

    filter.merchant = Some(merchant);
    let all = ledger.get_invoices(filter);
    assert_eq!(all.len(), 2);
}

#[test]
fn amount_filters_form_an_inclusive_range() {
    let (mut ledger, _admin, merchant) = setup_ledger();
    let token = addr(50);
    ledger.create_invoice(merchant, String::from("low"), 10, token, 5).unwrap();
    ledger.create_invoice(merchant, String::from("mid"), 100, token, 5).unwrap();
    ledger.create_invoice(merchant, String::from("high"), 200, token, 5).unwrap();

    let mut filter = empty_filter();
    filter.min_amount = Some(10);
    filter.max_amount = Some(100);
    let in_range = ledger.get_invoices(filter);
    assert_eq!(in_range.len(), 2);
    assert_eq!(in_range[0].amount, 10);
    assert_eq!(in_range[1].amount, 100);

    filter.min_amount = Some(11);
    let tighter = ledger.get_invoices(filter);
    assert_eq!(tighter.len(), 1);
    assert_eq!(tighter[0].amount, 100);
}

#[test]
fn empty_filter_returns_all_invoices_in_id_order() {
    let (mut ledger, admin, merchant) = setup_ledger();
    let token = addr(50);
    ledger.create_invoice(merchant, String::from("a"), 100, token, 5).unwrap();
    ledger.create_invoice(merchant, String::from("b"), 200, token, 5).unwrap();
    ledger.create_invoice(merchant, String::from("c"), 300, token, 5).unwrap();

    let all = ledger.get_invoices(empty_filter());
    assert_eq!(all.len(), 3);
    assert_eq!(all[0].id, 1);
    assert_eq!(all[1].id, 2);
    assert_eq!(all[2].id, 3);

    ledger.pay_invoice_admin(admin, 2, 9).unwrap();
    let mut filter = empty_filter();
    filter.status = Some(InvoiceStatus::Pending);
    let pending = ledger.get_invoices(filter);
    assert_eq!(pending.len(), 2);
    assert_eq!(pending[0].id, 1);
    assert_eq!(pending[1].id, 3);

    filter.status = Some(InvoiceStatus::Paid);
    let paid = ledger.get_invoices(filter);
    assert_eq!(paid.len(), 1);
    assert_eq!(paid[0].id, 2);
}
