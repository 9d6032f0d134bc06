//! The names of operations and statuses.
//!
//! The rules tell operations and statuses apart by name. A string literal is
//! opaque to a proof until it is spelled out, which this module does once for
//! all names.
use vstd::prelude::*;

verus! {

/// Whether a text has the given length and first character.
pub open spec fn begins(text: Seq<char>, first: char, len: nat) -> bool {
    text.len() == len && text[0] == first
}

/// How operation names are spelled, as far as it tells them apart.
pub proof fn lemma_operation_names()
    ensures
        begins("asset.mint"@, 'a', 10),
        begins("asset.transfer"@, 'a', 14),
        begins("asset.burn"@, 'a', 10),
        begins("asset.lock"@, 'a', 10),
        begins("asset.unlock"@, 'a', 12),
        begins("asset.delist"@, 'a', 12),
        begins("asset.release"@, 'a', 13),
        begins("asset.restore"@, 'a', 13),
        begins("asset.list"@, 'a', 10),
        begins("asset.escrow"@, 'a', 12),
        begins("asset.redeem"@, 'a', 12),
        begins("asset.restrict"@, 'a', 14),
        begins("asset.hard_delete"@, 'a', 17),
        begins("asset.attach_content"@, 'a', 20),
        begins("asset.detach_content"@, 'a', 20),
        begins("asset.update_metadata"@, 'a', 21),
        begins("trade.lock"@, 't', 10),
        begins("trade.unlock"@, 't', 12),
        begins("trade.settle"@, 't', 12),
        begins("stack.create"@, 's', 12),
        begins("stack.credit"@, 's', 12),
        begins("stack.release"@, 's', 13),
        begins("stack.debit"@, 's', 11),
        begins("stack.consume"@, 's', 13),
        begins("stack.reserve"@, 's', 13),
        begins("stack.transfer"@, 's', 14),
        begins("stack.adjust"@, 's', 12),
        begins("stack.expire"@, 's', 12),
        begins("balance.create"@, 'b', 14),
        begins("balance.mint"@, 'b', 12),
        begins("balance.credit"@, 'b', 14),
        begins("balance.release"@, 'b', 15),
        begins("balance.debit"@, 'b', 13),
        begins("balance.spend"@, 'b', 13),
        begins("balance.reserve"@, 'b', 15),
        begins("balance.burn"@, 'b', 12),
        begins("balance.transfer"@, 'b', 16),
        begins("balance.convert"@, 'b', 15),
        begins("entitlement.grant"@, 'e', 17),
        begins("entitlement.activate"@, 'e', 20),
        begins("entitlement.restore"@, 'e', 19),
        begins("entitlement.suspend"@, 'e', 19),
        begins("entitlement.expire"@, 'e', 18),
        begins("entitlement.revoke"@, 'e', 18),
        begins("entitlement.transfer"@, 'e', 20),
        begins("meter.create"@, 'm', 12),
        begins("meter.consume"@, 'm', 13),
        begins("meter.refill"@, 'm', 12),
        begins("meter.set_maximum"@, 'm', 17),
        begins("meter.reset"@, 'm', 11),
        begins("meter.expire"@, 'm', 12),
        begins("listing.create"@, 'l', 14),
        begins("listing.cancel"@, 'l', 14),
        begins("listing.buy"@, 'l', 11),
        begins("listing.expire"@, 'l', 14),
        begins("escrow.lock"@, 'e', 11),
        begins("escrow.release"@, 'e', 14),
        begins("escrow.refund"@, 'e', 13),
        "asset.mint"@[6] == 'm',
        "asset.transfer"@[6] == 't',
        "asset.burn"@[6] == 'b',
        "asset.lock"@[6] == 'l',
        "asset.lock"@[7] == 'o',
        "asset.unlock"@[6] == 'u',
        "asset.delist"@[6] == 'd',
        "asset.release"@[8] == 'l',
        "asset.restore"@[8] == 's',
        "asset.list"@[6] == 'l',
        "asset.list"@[7] == 'i',
        "asset.escrow"@[6] == 'e',
        "asset.redeem"@[6] == 'r',
        "asset.restrict"@[6] == 'r',
        "asset.attach_content"@[6] == 'a',
        "asset.detach_content"@[6] == 'd',
        "trade.unlock"@[6] == 'u',
        "trade.settle"@[6] == 's',
        "stack.create"@[6] == 'c',
        "stack.create"@[9] == 'a',
        "stack.credit"@[6] == 'c',
        "stack.credit"@[9] == 'd',
        "stack.release"@[6] == 'r',
        "stack.release"@[8] == 'l',
        "stack.consume"@[6] == 'c',
        "stack.reserve"@[6] == 'r',
        "stack.reserve"@[8] == 's',
        "stack.adjust"@[6] == 'a',
        "stack.expire"@[6] == 'e',
        "balance.create"@[11] == 'a',
        "balance.mint"@[8] == 'm',
        "balance.credit"@[11] == 'd',
        "balance.release"@[8] == 'r',
        "balance.release"@[10] == 'l',
        "balance.debit"@[8] == 'd',
        "balance.spend"@[8] == 's',
        "balance.reserve"@[8] == 'r',
        "balance.reserve"@[10] == 's',
        "balance.burn"@[8] == 'b',
        "balance.convert"@[8] == 'c',
        "entitlement.activate"@[12] == 'a',
        "entitlement.restore"@[12] == 'r',
        "entitlement.suspend"@[12] == 's',
        "entitlement.expire"@[12] == 'e',
        "entitlement.revoke"@[12] == 'r',
        "entitlement.transfer"@[12] == 't',
        "meter.create"@[6] == 'c',
        "meter.refill"@[6] == 'r',
        "meter.expire"@[6] == 'e',
        "listing.create"@[8] == 'c',
        "listing.create"@[9] == 'r',
        "listing.cancel"@[8] == 'c',
        "listing.cancel"@[9] == 'a',
        "listing.expire"@[8] == 'e',
{
    reveal_strlit("asset.mint");
    reveal_strlit("asset.transfer");
    reveal_strlit("asset.burn");
    reveal_strlit("asset.lock");
    reveal_strlit("asset.unlock");
    reveal_strlit("asset.delist");
    reveal_strlit("asset.release");
    reveal_strlit("asset.restore");
    reveal_strlit("asset.list");
    reveal_strlit("asset.escrow");
    reveal_strlit("asset.redeem");
    reveal_strlit("asset.restrict");
    reveal_strlit("asset.hard_delete");
    reveal_strlit("asset.attach_content");
    reveal_strlit("asset.detach_content");
    reveal_strlit("asset.update_metadata");
    reveal_strlit("trade.lock");
    reveal_strlit("trade.unlock");
    reveal_strlit("trade.settle");
    reveal_strlit("stack.create");
    reveal_strlit("stack.credit");
    reveal_strlit("stack.release");
    reveal_strlit("stack.debit");
    reveal_strlit("stack.consume");
    reveal_strlit("stack.reserve");
    reveal_strlit("stack.transfer");
    reveal_strlit("stack.adjust");
    reveal_strlit("stack.expire");
    reveal_strlit("balance.create");
    reveal_strlit("balance.mint");
    reveal_strlit("balance.credit");
    reveal_strlit("balance.release");
    reveal_strlit("balance.debit");
    reveal_strlit("balance.spend");
    reveal_strlit("balance.reserve");
    reveal_strlit("balance.burn");
    reveal_strlit("balance.transfer");
    reveal_strlit("balance.convert");
    reveal_strlit("entitlement.grant");
    reveal_strlit("entitlement.activate");
    reveal_strlit("entitlement.restore");
    reveal_strlit("entitlement.suspend");
    reveal_strlit("entitlement.expire");
    reveal_strlit("entitlement.revoke");
    reveal_strlit("entitlement.transfer");
    reveal_strlit("meter.create");
    reveal_strlit("meter.consume");
    reveal_strlit("meter.refill");
    reveal_strlit("meter.set_maximum");
    reveal_strlit("meter.reset");
    reveal_strlit("meter.expire");
    reveal_strlit("listing.create");
    reveal_strlit("listing.cancel");
    reveal_strlit("listing.buy");
    reveal_strlit("listing.expire");
    reveal_strlit("escrow.lock");
    reveal_strlit("escrow.release");
    reveal_strlit("escrow.refund");
}

/// How status names are spelled, as far as it tells them apart.
pub proof fn lemma_status_names()
    ensures
        begins("active"@, 'a', 6),
        begins("granted"@, 'g', 7),
        begins("burned"@, 'b', 6),
        begins("expired"@, 'e', 7),
        begins("tombstoned"@, 't', 10),
        begins("revoked"@, 'r', 7),
        begins("redeemed"@, 'r', 8),
        begins("sold"@, 's', 4),
        begins("cancelled"@, 'c', 9),
        begins("released"@, 'r', 8),
        begins("refunded"@, 'r', 8),
        begins("restricted"@, 'r', 10),
        begins("quarantined"@, 'q', 11),
        begins("unsupported"@, 'u', 11),
        begins("legal_hold"@, 'l', 10),
        begins("fraud_lock"@, 'f', 10),
        begins("policy_restricted"@, 'p', 17),
        begins("locked"@, 'l', 6),
        begins("escrowed"@, 'e', 8),
        begins("listed"@, 'l', 6),
        begins("suspended"@, 's', 9),
        begins("trade_held"@, 't', 10),
        "tombstoned"@[1] == 'o',
        "redeemed"@[2] == 'd',
        "released"@[2] == 'l',
        "refunded"@[2] == 'f',
        "locked"@[1] == 'o',
        "listed"@[1] == 'i',
        "trade_held"@[1] == 'r',
{
    reveal_strlit("active");
    reveal_strlit("granted");
    reveal_strlit("burned");
    reveal_strlit("expired");
    reveal_strlit("tombstoned");
    reveal_strlit("revoked");
    reveal_strlit("redeemed");
    reveal_strlit("sold");
    reveal_strlit("cancelled");
    reveal_strlit("released");
    reveal_strlit("refunded");
    reveal_strlit("restricted");
    reveal_strlit("quarantined");
    reveal_strlit("unsupported");
    reveal_strlit("legal_hold");
    reveal_strlit("fraud_lock");
    reveal_strlit("policy_restricted");
    reveal_strlit("locked");
    reveal_strlit("escrowed");
    reveal_strlit("listed");
    reveal_strlit("suspended");
    reveal_strlit("trade_held");
}

} // verus!
