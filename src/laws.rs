//! Properties of the sale that relate several operations or hold of every
//! input, stated over the abstract state that the operations' contracts use.
use crate::conversion::{locked_share, sale_share};
use crate::ico::{
    address_set, after_buy, after_populate, buy_refusal, egld_withdrawal, spent_of, Address,
    IcoError, IcoState,
};
use vstd::prelude::*;

verus! {

/// A purchase while the sale is closed is refused as inactive, whatever the
/// caller, amount and balances.
pub proof fn lemma_closed_sale_refuses(
    s: IcoState,
    caller: Address,
    paid: nat,
    sale_balance: nat,
    locked_balance: nat,
)
    requires
        !s.sale_started,
    ensures
        buy_refusal(s, caller, paid, sale_balance, locked_balance) == Some(IcoError::SaleNotActive),
{
}

/// A payment below the minimum or above the maximum is refused.
pub proof fn lemma_out_of_limits_refused(
    s: IcoState,
    caller: Address,
    paid: nat,
    sale_balance: nat,
    locked_balance: nat,
)
    requires
        paid < s.min_buy_limit || paid > s.max_buy_limit,
    ensures
        buy_refusal(s, caller, paid, sale_balance, locked_balance) is Some,
{
}

/// Two purchases by one buyer who had bought nothing: when the payments add
/// up to at most the maximum, the second goes through too and the buyer's
/// total is their sum; otherwise the second is refused as above the
/// cumulative maximum and the total stays at the first payment.
pub proof fn lemma_two_purchases(
    s: IcoState,
    caller: Address,
    a: nat,
    b: nat,
    sale_balance_1: nat,
    locked_balance_1: nat,
    sale_balance_2: nat,
    locked_balance_2: nat,
)
    requires
        spent_of(s, caller) == 0,
        buy_refusal(s, caller, a, sale_balance_1, locked_balance_1) is None,
        s.min_buy_limit <= b <= s.max_buy_limit,
    ensures
        spent_of(after_buy(s, caller, a), caller) == a,
        a + b <= s.max_buy_limit && sale_share(b, s.token_price) <= sale_balance_2 && locked_share(
            b,
            s.token_price,
        ) <= locked_balance_2 ==> buy_refusal(
            after_buy(s, caller, a),
            caller,
            b,
            sale_balance_2,
            locked_balance_2,
        ) is None && spent_of(after_buy(after_buy(s, caller, a), caller, b), caller) == a + b,
        a + b > s.max_buy_limit ==> buy_refusal(
            after_buy(s, caller, a),
            caller,
            b,
            sale_balance_2,
            locked_balance_2,
        ) == Some(IcoError::AboveCumulativeMaxBuy),
{
}

/// When the liquid token held falls short of what an otherwise valid
/// purchase would send, the purchase is refused for that reason, before any
/// amount is handed out.
pub proof fn lemma_short_sale_asset_refused(
    s: IcoState,
    caller: Address,
    paid: nat,
    sale_balance: nat,
    locked_balance: nat,
)
    requires
        s.sale_started,
        !s.allowlist_enabled || s.allowlist.contains(caller),
        s.min_buy_limit <= paid <= s.max_buy_limit,
        spent_of(s, caller) + paid <= s.max_buy_limit,
        sale_share(paid, s.token_price) > sale_balance,
    ensures
        buy_refusal(s, caller, paid, sale_balance, locked_balance) == Some(
            IcoError::InsufficientSaleAsset,
        ),
{
}

/// With gating on, a caller off the allowlist is refused whatever the
/// amount; once the caller is added, the same purchase goes through when
/// nothing else stands in its way.
pub proof fn lemma_allowlist_gate(
    s: IcoState,
    caller: Address,
    paid: nat,
    sale_balance: nat,
    locked_balance: nat,
)
    requires
        s.sale_started,
        s.allowlist_enabled,
        !s.allowlist.contains(caller),
    ensures
        buy_refusal(s, caller, paid, sale_balance, locked_balance) == Some(IcoError::NotEligible),
        s.min_buy_limit <= paid <= s.max_buy_limit && spent_of(s, caller) + paid
            <= s.max_buy_limit && sale_share(paid, s.token_price) <= sale_balance && locked_share(
            paid,
            s.token_price,
        ) <= locked_balance ==> buy_refusal(
            after_populate(s, seq![caller]),
            caller,
            paid,
            sale_balance,
            locked_balance,
        ) is None,
{
    assert(seq![caller][0] == caller);
    assert(address_set(seq![caller]).contains(caller));
}

/// Withdrawing the base currency by the owner is refused on an empty
/// balance, and otherwise sends the whole balance, which leaves nothing.
pub proof fn lemma_withdraw_egld_empties(balance: nat)
    ensures
        egld_withdrawal(true, 0) == Err::<nat, IcoError>(IcoError::InsufficientFunds),
        balance > 0 ==> (egld_withdrawal(true, balance) matches Ok(sent) && sent == balance
            && balance - sent == 0),
{
}

/// Adding two lists to the allowlist leaves exactly the earlier members and
/// the addresses of both lists; adding a list a second time changes nothing.
pub proof fn lemma_populate_union(s: IcoState, xs: Seq<Address>, ys: Seq<Address>)
    ensures
        after_populate(after_populate(s, xs), ys).allowlist == s.allowlist.union(
            address_set(xs),
        ).union(address_set(ys)),
        after_populate(after_populate(s, xs), xs) == after_populate(s, xs),
{
    let once = after_populate(s, xs);
    assert(once.allowlist.union(address_set(xs)) =~= once.allowlist);
    assert(after_populate(once, xs) =~= once);
}

} // verus!
