//! The sale: configuration, flags, allowlist, the ledger of what each buyer
//! has paid so far, the owner's operations and the purchase itself.
//!
//! The owner capability is decided by the host and handed in as a flag. Token
//! custody also stays with the host: operations take the balances they need
//! and return the amounts that the host is to transfer.
use crate::conversion::{locked_share, locked_token_amount, sale_share, token_amount};
use crate::token_id::{valid_esdt_identifier, TokenId};
use vstd::prelude::*;

verus! {

broadcast use vstd::array::axiom_array_ext_equal;

/// Length in bytes of an account address.
pub const ADDRESS_LEN: usize = 32;

/// An account address: the 32 bytes of a public key.
#[derive(Clone, Copy, Debug, PartialEq, Eq)]
pub struct Address {
    pub bytes: [u8; 32],
}

/// Why an operation was refused. A refused operation changes nothing.
#[derive(Clone, Copy, Debug, PartialEq, Eq, Structural)]
pub enum IcoError {
    /// A privileged operation was called by someone other than the owner.
    Unauthorized,
    /// A token identifier is malformed, the two identifiers coincide, or the
    /// price is zero.
    InvalidConfiguration,
    /// A purchase while the sale is closed.
    SaleNotActive,
    /// A purchase by a caller off the allowlist while gating is on.
    NotEligible,
    /// A payment below the minimum of one purchase.
    BelowMinBuy,
    /// A payment above the maximum of one purchase.
    AboveMaxBuy,
    /// A payment that would take the buyer's total above the maximum.
    AboveCumulativeMaxBuy,
    /// Less of the liquid token is held than the purchase would send.
    InsufficientSaleAsset,
    /// Less of the locked token is held than the purchase would send.
    InsufficientLockedAsset,
    /// A withdrawal of more than is held, or of an empty balance.
    InsufficientFunds,
}

/// The amounts that a successful purchase sends to the buyer.
#[derive(Clone, Copy, Debug, PartialEq, Eq, Structural)]
pub struct Purchase {
    pub token_amount: u128,
    pub locked_token_amount: u128,
}

/// The abstract state of a sale.
pub ghost struct IcoState {
    pub token_id: Seq<u8>,
    pub locked_token_id: Seq<u8>,
    pub token_price: nat,
    pub min_buy_limit: nat,
    pub max_buy_limit: nat,
    pub sale_started: bool,
    pub allowlist_enabled: bool,
    pub allowlist: Set<Address>,
    /// What each buyer has paid so far; a buyer without entry paid nothing.
    pub bought: Map<Address, nat>,
}

/// The set of the addresses in `s`.
pub open spec fn address_set(s: Seq<Address>) -> Set<Address> {
    Set::new(|a: Address| s.contains(a))
}

/// What `buyer` has paid so far.
pub open spec fn spent_of(s: IcoState, buyer: Address) -> nat {
    if s.bought.contains_key(buyer) {
        s.bought[buyer]
    } else {
        0
    }
}

/// The refusal that a purchase meets, in the order of the checks, or `None`
/// when it goes through.
pub open spec fn buy_refusal(
    s: IcoState,
    caller: Address,
    paid: nat,
    sale_balance: nat,
    locked_balance: nat,
) -> Option<IcoError> {
    if !s.sale_started {
        Some(IcoError::SaleNotActive)
    } else if s.allowlist_enabled && !s.allowlist.contains(caller) {
        Some(IcoError::NotEligible)
    } else if paid < s.min_buy_limit {
        Some(IcoError::BelowMinBuy)
    } else if paid > s.max_buy_limit {
        Some(IcoError::AboveMaxBuy)
    } else if spent_of(s, caller) + paid > s.max_buy_limit {
        Some(IcoError::AboveCumulativeMaxBuy)
    } else if sale_share(paid, s.token_price) > sale_balance {
        Some(IcoError::InsufficientSaleAsset)
    } else if locked_share(paid, s.token_price) > locked_balance {
        Some(IcoError::InsufficientLockedAsset)
    } else {
        None
    }
}

/// The state after a successful purchase of `paid` by `caller`.
pub open spec fn after_buy(s: IcoState, caller: Address, paid: nat) -> IcoState {
    IcoState { bought: s.bought.insert(caller, spent_of(s, caller) + paid), ..s }
}

/// The state after `addresses` were added to the allowlist.
pub open spec fn after_populate(s: IcoState, addresses: Seq<Address>) -> IcoState {
    IcoState { allowlist: s.allowlist.union(address_set(addresses)), ..s }
}

/// What withdrawing the whole base-currency balance yields: the amount to
/// send to the owner, or the refusal.
pub open spec fn egld_withdrawal(caller_is_owner: bool, balance: nat) -> Result<nat, IcoError> {
    if !caller_is_owner {
        Err(IcoError::Unauthorized)
    } else if balance == 0 {
        Err(IcoError::InsufficientFunds)
    } else {
        Ok(balance)
    }
}

/// What withdrawing `amount` of a token yields when `balance` of it is held.
pub open spec fn esdt_withdrawal(caller_is_owner: bool, amount: nat, balance: nat) -> Result<
    nat,
    IcoError,
> {
    if !caller_is_owner {
        Err(IcoError::Unauthorized)
    } else if amount > balance {
        Err(IcoError::InsufficientFunds)
    } else {
        Ok(amount)
    }
}

/// Whether two byte strings are equal.
fn same_bytes(a: &Vec<u8>, b: &Vec<u8>) -> (r: bool)
    ensures
        r == (a@ == b@),
{
    if a.len() != b.len() {
        return false;
    }
    let mut i: usize = 0;
    while i < a.len()
        invariant
            a@.len() == b@.len(),
            i <= a@.len(),
            forall|k: int| 0 <= k < i ==> a@[k] == b@[k],
        decreases a@.len() - i,
    {
        if a[i] != b[i] {
            return false;
        }
        i = i + 1;
    }
    assert(a@ =~= b@);
    true
}

/// Whether two addresses are equal.
fn same_address(a: &Address, b: &Address) -> (r: bool)
    ensures
        r == (*a == *b),
{
    let mut i: usize = 0;
    while i < ADDRESS_LEN
        invariant
            i <= ADDRESS_LEN,
            forall|k: int| 0 <= k < i ==> a.bytes[k] == b.bytes[k],
        decreases ADDRESS_LEN - i,
    {
        if a.bytes[i] != b.bytes[i] {
            return false;
        }
        i = i + 1;
    }
    assert(a.bytes =~= b.bytes);
    true
}

/// Whether `a` occurs in `v`.
fn contains_address(v: &Vec<Address>, a: &Address) -> (r: bool)
    ensures
        r == v@.contains(*a),
{
    let mut i: usize = 0;
    while i < v.len()
        invariant
            i <= v@.len(),
            forall|k: int| 0 <= k < i ==> v@[k] != *a,
        decreases v@.len() - i,
    {
        if same_address(&v[i], a) {
            assert(v@[i as int] == *a);
            return true;
        }
        i = i + 1;
    }
    false
}

/// Appends each of `addrs` that `v` does not hold yet.
fn add_addresses(v: &mut Vec<Address>, addrs: &Vec<Address>)
    ensures
        address_set(final(v)@) == address_set(old(v)@).union(address_set(addrs@)),
{
    let mut i: usize = 0;
    assert(address_set(v@) =~= address_set(old(v)@).union(address_set(addrs@.subrange(0, 0))));
    while i < addrs.len()
        invariant
            i <= addrs@.len(),
            address_set(v@) == address_set(old(v)@).union(
                address_set(addrs@.subrange(0, i as int)),
            ),
        decreases addrs@.len() - i,
    {
        let a = addrs[i];
        let ghost before = v@;
        if !contains_address(v, &a) {
            v.push(a);
            assert(v@[before.len() as int] == a);
            assert forall|x: Address| #[trigger] before.contains(x) implies v@.contains(x) by {
                let k = choose|k: int| 0 <= k < before.len() && before[k] == x;
                assert(v@[k] == x);
            }
        }
        assert(v@.contains(a));
        assert forall|x: Address| #[trigger] v@.contains(x) implies before.contains(x) || x == a by {
            let k = choose|k: int| 0 <= k < v@.len() && v@[k] == x;
            if k < before.len() {
                assert(before[k] == x);
            }
        }
        let ghost done = addrs@.subrange(0, i as int);
        let ghost next = addrs@.subrange(0, i + 1);
        assert forall|x: Address| #[trigger] next.contains(x) implies done.contains(x) || x == a by {
            let k = choose|k: int| 0 <= k < next.len() && next[k] == x;
            if k < i {
                assert(done[k] == x);
            }
        }
        assert forall|x: Address| #[trigger] done.contains(x) implies next.contains(x) by {
            let k = choose|k: int| 0 <= k < done.len() && done[k] == x;
            assert(next[k] == x);
        }
        assert(next[i as int] == a);
        assert(next.contains(a));
        assert forall|x: Address| #[trigger] v@.contains(x) <==> (before.contains(x) || x == a) by {
            if before.contains(x) {
                let k = choose|k: int| 0 <= k < before.len() && before[k] == x;
                assert(v@.contains(x));
            }
        }
        assert forall|x: Address| #[trigger] next.contains(x) <==> (done.contains(x) || x == a) by {
        }
        assert(address_set(before) == address_set(old(v)@).union(address_set(done)));
        assert forall|x: Address|
            #[trigger] address_set(v@).contains(x) == address_set(old(v)@).union(
                address_set(next),
            ).contains(x) by {
            assert(address_set(before).contains(x) == before.contains(x));
        }
        assert(address_set(v@) =~= address_set(old(v)@).union(address_set(next)));
        i = i + 1;
    }
    assert(addrs@.subrange(0, addrs@.len() as int) =~= addrs@);
}

/// The ledger holds each buyer once, agrees with the map `bought`, and no
/// total in it exceeds `max`.
#[verifier::opaque]
spec fn ledger_wf(ledger: Seq<(Address, u128)>, bought: Map<Address, nat>, max: nat) -> bool {
    &&& forall|i: int, j: int|
        0 <= i < ledger.len() && 0 <= j < ledger.len() && i != j ==> #[trigger] ledger[i].0
            != #[trigger] ledger[j].0
    &&& forall|i: int|
        0 <= i < ledger.len() ==> bought.contains_key(#[trigger] ledger[i].0) && bought[ledger[i].0]
            == ledger[i].1
    &&& forall|a: Address| #[trigger]
        bought.contains_key(a) ==> exists|i: int| 0 <= i < ledger.len() && #[trigger] ledger[i].0 == a
    &&& forall|a: Address| #[trigger] bought.contains_key(a) ==> bought[a] <= max
}

/// The position of `a` in `ledger`, if it has an entry.
fn find_entry(ledger: &Vec<(Address, u128)>, a: &Address) -> (r: Option<usize>)
    ensures
        r matches Some(i) ==> i < ledger@.len() && ledger@[i as int].0 == *a,
        r is None ==> forall|k: int| 0 <= k < ledger@.len() ==> ledger@[k].0 != *a,
{
    let mut i: usize = 0;
    while i < ledger.len()
        invariant
            i <= ledger@.len(),
            forall|k: int| 0 <= k < i ==> ledger@[k].0 != *a,
        decreases ledger@.len() - i,
    {
        if same_address(&ledger[i].0, a) {
            return Some(i);
        }
        i = i + 1;
    }
    None
}

/// A fixed-price sale of a liquid token and a locked token.
pub struct Sale {
    token_id: TokenId,
    locked_token_id: TokenId,
    token_price: u128,
    min_buy_limit: u128,
    max_buy_limit: u128,
    sale_started: bool,
    allowlist_enabled: bool,
    allowlist: Vec<Address>,
    ledger: Vec<(Address, u128)>,
    bought: Ghost<Map<Address, nat>>,
}

/// The operations of a fixed-price sale, specified over its abstract state.
pub trait LandboardIco: Sized {
    /// The abstract state.
    spec fn state(&self) -> IcoState;

    /// The invariant of a sale: a valid configuration, a positive price, and
    /// a ledger that holds each buyer once and no total above the maximum.
    spec fn wf(&self) -> bool;

    /// What the invariant says of the abstract state: valid and distinct
    /// identifiers, a positive price, and no buyer whose total exceeds the
    /// maximum. Every operation keeps the invariant, so this holds at all
    /// times.
    proof fn lemma_wf_state(&self)
        requires
            self.wf(),
        ensures
            valid_esdt_identifier(self.state().token_id),
            valid_esdt_identifier(self.state().locked_token_id),
            self.state().token_id != self.state().locked_token_id,
            self.state().token_price > 0,
            forall|a: Address| #[trigger]
                self.state().bought.contains_key(a) ==> self.state().bought[a]
                    <= self.state().max_buy_limit,
    ;

    /// Creates a sale, stopped and without allowlist gating.
    fn init(
        token_id: TokenId,
        locked_token_id: TokenId,
        token_price: u128,
        min_buy_limit: u128,
        max_buy_limit: u128,
    ) -> (r: Result<Self, IcoError>)
        ensures
            valid_esdt_identifier(token_id@) && valid_esdt_identifier(locked_token_id@)
                && token_id@ != locked_token_id@ && token_price > 0 <==> r is Ok,
            r is Err ==> r == Err::<Self, IcoError>(IcoError::InvalidConfiguration),
            r matches Ok(s) ==> s.wf() && s.state() == (IcoState {
                token_id: token_id@,
                locked_token_id: locked_token_id@,
                token_price: token_price as nat,
                min_buy_limit: min_buy_limit as nat,
                max_buy_limit: max_buy_limit as nat,
                sale_started: false,
                allowlist_enabled: false,
                allowlist: Set::empty(),
                bought: Map::empty(),
            }),
    ;

    /// Opens the sale.
    fn start_sale(&mut self, caller_is_owner: bool) -> (r: Result<(), IcoError>)
        requires
            old(self).wf(),
        ensures
            final(self).wf(),
            caller_is_owner ==> r is Ok && final(self).state() == (IcoState {
                sale_started: true,
                ..old(self).state()
            }),
            !caller_is_owner ==> r == Err::<(), IcoError>(IcoError::Unauthorized) && final(self).state()
                == old(self).state(),
    ;

    /// Closes the sale.
    fn stop_sale(&mut self, caller_is_owner: bool) -> (r: Result<(), IcoError>)
        requires
            old(self).wf(),
        ensures
            final(self).wf(),
            caller_is_owner ==> r is Ok && final(self).state() == (IcoState {
                sale_started: false,
                ..old(self).state()
            }),
            !caller_is_owner ==> r == Err::<(), IcoError>(IcoError::Unauthorized) && final(self).state()
                == old(self).state(),
    ;

    /// Sets the price of one whole token. A zero price, which would leave
    /// purchases without a defined amount, is refused.
    fn update_token_price(&mut self, caller_is_owner: bool, token_price: u128) -> (r: Result<
        (),
        IcoError,
    >)
        requires
            old(self).wf(),
        ensures
            final(self).wf(),
            caller_is_owner && token_price > 0 ==> r is Ok && final(self).state() == (IcoState {
                token_price: token_price as nat,
                ..old(self).state()
            }),
            !caller_is_owner ==> r == Err::<(), IcoError>(IcoError::Unauthorized),
            caller_is_owner && token_price == 0 ==> r == Err::<(), IcoError>(
                IcoError::InvalidConfiguration,
            ),
            r is Err ==> final(self).state() == old(self).state(),
    ;

    /// Sets the minimum amount of one purchase.
    fn update_min_buy_limit(&mut self, caller_is_owner: bool, min_buy_limit: u128) -> (r:
        Result<(), IcoError>)
        requires
            old(self).wf(),
        ensures
            final(self).wf(),
            caller_is_owner ==> r is Ok && final(self).state() == (IcoState {
                min_buy_limit: min_buy_limit as nat,
                ..old(self).state()
            }),
            !caller_is_owner ==> r == Err::<(), IcoError>(IcoError::Unauthorized) && final(self).state()
                == old(self).state(),
    ;

    /// The operation published as the update of the maximum. It sets the
    /// *minimum* limit and leaves the maximum as it was, so the maximum stays
    /// the one given at creation.
    fn update_max_buy_limit(&mut self, caller_is_owner: bool, min_buy_limit: u128) -> (r:
        Result<(), IcoError>)
        requires
            old(self).wf(),
        ensures
            final(self).wf(),
            caller_is_owner ==> r is Ok && final(self).state() == (IcoState {
                min_buy_limit: min_buy_limit as nat,
                ..old(self).state()
            }),
            !caller_is_owner ==> r == Err::<(), IcoError>(IcoError::Unauthorized) && final(self).state()
                == old(self).state(),
    ;

    /// Turns allowlist gating on.
    fn enable_allowlist(&mut self, caller_is_owner: bool) -> (r: Result<(), IcoError>)
        requires
            old(self).wf(),
        ensures
            final(self).wf(),
            caller_is_owner ==> r is Ok && final(self).state() == (IcoState {
                allowlist_enabled: true,
                ..old(self).state()
            }),
            !caller_is_owner ==> r == Err::<(), IcoError>(IcoError::Unauthorized) && final(self).state()
                == old(self).state(),
    ;

    /// Turns allowlist gating off.
    fn disable_allowlist(&mut self, caller_is_owner: bool) -> (r: Result<(), IcoError>)
        requires
            old(self).wf(),
        ensures
            final(self).wf(),
            caller_is_owner ==> r is Ok && final(self).state() == (IcoState {
                allowlist_enabled: false,
                ..old(self).state()
            }),
            !caller_is_owner ==> r == Err::<(), IcoError>(IcoError::Unauthorized) && final(self).state()
                == old(self).state(),
    ;

    /// Whether `a` is on the allowlist.
    fn is_in_allowlist(&self, a: &Address) -> (r: bool)
        ensures
            r == self.state().allowlist.contains(*a),
    ;

    /// Adds each of `addresses` to the allowlist; one already there stays once.
    fn populate_allowlist(&mut self, caller_is_owner: bool, addresses: &Vec<Address>) -> (r:
        Result<(), IcoError>)
        requires
            old(self).wf(),
        ensures
            final(self).wf(),
            caller_is_owner ==> r is Ok && final(self).state() == after_populate(old(self).state(), addresses@),
            !caller_is_owner ==> r == Err::<(), IcoError>(IcoError::Unauthorized) && final(self).state()
                == old(self).state(),
    ;

    /// Succeeds exactly when the sale is open.
    fn require_activation(&self) -> (r: Result<(), IcoError>)
        ensures
            self.state().sale_started ==> r is Ok,
            !self.state().sale_started ==> r == Err::<(), IcoError>(IcoError::SaleNotActive),
    ;

    /// What `buyer` has paid so far.
    fn bought_amount(&self, buyer: &Address) -> (r: u128)
        requires
            self.wf(),
        ensures
            r == spent_of(self.state(), *buyer),
    ;

    /// A purchase by `caller` of `paid_amount` in base currency, while the
    /// service holds `sale_balance` of the liquid token and `locked_balance`
    /// of the locked token. The checks run in a fixed order and the first
    /// that fails decides the refusal; nothing changes then. Otherwise the
    /// caller's total grows by the payment and the amounts to send to the
    /// caller are returned.
    fn buy(
        &mut self,
        caller: Address,
        paid_amount: u128,
        sale_balance: u128,
        locked_balance: u128,
    ) -> (r: Result<Purchase, IcoError>)
        requires
            old(self).wf(),
        ensures
            final(self).wf(),
            buy_refusal(
                old(self).state(),
                caller,
                paid_amount as nat,
                sale_balance as nat,
                locked_balance as nat,
            ) matches Some(e) ==> r == Err::<Purchase, IcoError>(e) && final(self).state() == old(self).state(),
            buy_refusal(
                old(self).state(),
                caller,
                paid_amount as nat,
                sale_balance as nat,
                locked_balance as nat,
            ) is None ==> r == Ok::<Purchase, IcoError>(
                Purchase {
                    token_amount: sale_share(paid_amount as nat, old(self).state().token_price) as u128,
                    locked_token_amount: locked_share(
                        paid_amount as nat,
                        old(self).state().token_price,
                    ) as u128,
                },
            ) && final(self).state() == after_buy(old(self).state(), caller, paid_amount as nat),
    ;

    /// The amount of base currency to send to the owner: the whole balance.
    fn withdraw_egld(&self, caller_is_owner: bool, egld_balance: u128) -> (r: Result<
        u128,
        IcoError,
    >)
        ensures
            r matches Ok(x) ==> egld_withdrawal(caller_is_owner, egld_balance as nat) == Ok::<
                nat,
                IcoError,
            >(x as nat),
            r matches Err(e) ==> egld_withdrawal(caller_is_owner, egld_balance as nat) == Err::<
                nat,
                IcoError,
            >(e),
    ;

    /// The amount of a token to send to the owner, when `balance` of it is
    /// held.
    fn withdraw_esdt(&self, caller_is_owner: bool, amount: u128, balance: u128) -> (r: Result<
        u128,
        IcoError,
    >)
        ensures
            r matches Ok(x) ==> esdt_withdrawal(caller_is_owner, amount as nat, balance as nat)
                == Ok::<nat, IcoError>(x as nat),
            r matches Err(e) ==> esdt_withdrawal(caller_is_owner, amount as nat, balance as nat)
                == Err::<nat, IcoError>(e),
    ;

    /// Identifier of the liquid token.
    fn token_id(&self) -> (r: &TokenId)
        ensures
            r@ == self.state().token_id,
    ;

    /// Identifier of the locked token.
    fn locked_token_id(&self) -> (r: &TokenId)
        ensures
            r@ == self.state().locked_token_id,
    ;

    /// Price of one whole liquid token in base currency.
    fn token_price(&self) -> (r: u128)
        ensures
            r == self.state().token_price,
    ;

    /// Smallest payment accepted in one purchase.
    fn min_buy_limit(&self) -> (r: u128)
        ensures
            r == self.state().min_buy_limit,
    ;

    /// Largest payment accepted in one purchase, and largest total per buyer.
    fn max_buy_limit(&self) -> (r: u128)
        ensures
            r == self.state().max_buy_limit,
    ;

    /// Whether the sale is open.
    fn sale_started(&self) -> (r: bool)
        ensures
            r == self.state().sale_started,
    ;

    /// Whether purchases are limited to the allowlist.
    fn is_allowlist_enabled(&self) -> (r: bool)
        ensures
            r == self.state().allowlist_enabled,
    ;
}

impl LandboardIco for Sale {
    closed spec fn state(&self) -> IcoState {
        IcoState {
            token_id: self.token_id@,
            locked_token_id: self.locked_token_id@,
            token_price: self.token_price as nat,
            min_buy_limit: self.min_buy_limit as nat,
            max_buy_limit: self.max_buy_limit as nat,
            sale_started: self.sale_started,
            allowlist_enabled: self.allowlist_enabled,
            allowlist: address_set(self.allowlist@),
            bought: self.bought@,
        }
    }

    closed spec fn wf(&self) -> bool {
        &&& valid_esdt_identifier(self.token_id@)
        &&& valid_esdt_identifier(self.locked_token_id@)
        &&& self.token_id@ != self.locked_token_id@
        &&& self.token_price > 0
        &&& ledger_wf(self.ledger@, self.bought@, self.max_buy_limit as nat)
    }

    proof fn lemma_wf_state(&self) {
        reveal(ledger_wf);
    }

    fn init(
        token_id: TokenId,
        locked_token_id: TokenId,
        token_price: u128,
        min_buy_limit: u128,
        max_buy_limit: u128,
    ) -> (r: Result<Self, IcoError>) {
        if !token_id.is_valid_esdt_identifier() || !locked_token_id.is_valid_esdt_identifier() {
            return Err(IcoError::InvalidConfiguration);
        }
        if same_bytes(&token_id.bytes, &locked_token_id.bytes) || token_price == 0 {
            return Err(IcoError::InvalidConfiguration);
        }
        let s = Sale {
            token_id,
            locked_token_id,
            token_price,
            min_buy_limit,
            max_buy_limit,
            sale_started: false,
            allowlist_enabled: false,
            allowlist: Vec::new(),
            ledger: Vec::new(),
            bought: Ghost(Map::empty()),
        };
        assert(address_set(s.allowlist@) =~= Set::empty());
        assert(ledger_wf(s.ledger@, s.bought@, max_buy_limit as nat)) by {
            reveal(ledger_wf);
        }
        Ok(s)
    }

    fn start_sale(&mut self, caller_is_owner: bool) -> (r: Result<(), IcoError>) {
        if !caller_is_owner {
            return Err(IcoError::Unauthorized);
        }
        self.sale_started = true;
        Ok(())
    }

    fn stop_sale(&mut self, caller_is_owner: bool) -> (r: Result<(), IcoError>) {
        if !caller_is_owner {
            return Err(IcoError::Unauthorized);
        }
        self.sale_started = false;
        Ok(())
    }

    fn update_token_price(&mut self, caller_is_owner: bool, token_price: u128) -> (r: Result<
        (),
        IcoError,
    >) {
        if !caller_is_owner {
            return Err(IcoError::Unauthorized);
        }
        if token_price == 0 {
            return Err(IcoError::InvalidConfiguration);
        }
        self.token_price = token_price;
        Ok(())
    }

    fn update_min_buy_limit(&mut self, caller_is_owner: bool, min_buy_limit: u128) -> (r:
        Result<(), IcoError>) {
        if !caller_is_owner {
            return Err(IcoError::Unauthorized);
        }
        self.min_buy_limit = min_buy_limit;
        Ok(())
    }

    fn update_max_buy_limit(&mut self, caller_is_owner: bool, min_buy_limit: u128) -> (r:
        Result<(), IcoError>) {
        if !caller_is_owner {
            return Err(IcoError::Unauthorized);
        }
        self.min_buy_limit = min_buy_limit;
        Ok(())
    }

    fn enable_allowlist(&mut self, caller_is_owner: bool) -> (r: Result<(), IcoError>) {
        if !caller_is_owner {
            return Err(IcoError::Unauthorized);
        }
        self.allowlist_enabled = true;
        Ok(())
    }

    fn disable_allowlist(&mut self, caller_is_owner: bool) -> (r: Result<(), IcoError>) {
        if !caller_is_owner {
            return Err(IcoError::Unauthorized);
        }
        self.allowlist_enabled = false;
        Ok(())
    }

    fn is_in_allowlist(&self, a: &Address) -> (r: bool) {
        contains_address(&self.allowlist, a)
    }

    fn populate_allowlist(&mut self, caller_is_owner: bool, addresses: &Vec<Address>) -> (r:
        Result<(), IcoError>) {
        if !caller_is_owner {
            return Err(IcoError::Unauthorized);
        }
        add_addresses(&mut self.allowlist, addresses);
        Ok(())
    }

    fn require_activation(&self) -> (r: Result<(), IcoError>) {
        if self.sale_started {
            Ok(())
        } else {
            Err(IcoError::SaleNotActive)
        }
    }

    fn bought_amount(&self, buyer: &Address) -> (r: u128) {
        proof {
            reveal(ledger_wf);
        }
        match find_entry(&self.ledger, buyer) {
            Some(i) => self.ledger[i].1,
            None => {
                proof {
                    if self.bought@.contains_key(*buyer) {
                        let k = choose|k: int|
                            0 <= k < self.ledger@.len() && #[trigger] self.ledger@[k].0 == *buyer;
                    }
                }
                0
            },
        }
    }

    fn buy(
        &mut self,
        caller: Address,
        paid_amount: u128,
        sale_balance: u128,
        locked_balance: u128,
    ) -> (r: Result<Purchase, IcoError>) {
        if !self.sale_started {
            return Err(IcoError::SaleNotActive);
        }
        if self.allowlist_enabled && !self.is_in_allowlist(&caller) {
            return Err(IcoError::NotEligible);
        }
        if paid_amount < self.min_buy_limit {
            return Err(IcoError::BelowMinBuy);
        }
        if paid_amount > self.max_buy_limit {
            return Err(IcoError::AboveMaxBuy);
        }
        let prior = self.bought_amount(&caller);
        proof {
            reveal(ledger_wf);
            if self.bought@.contains_key(caller) {
                assert(self.bought@[caller] <= self.max_buy_limit);
            }
        }
        if paid_amount > self.max_buy_limit - prior {
            return Err(IcoError::AboveCumulativeMaxBuy);
        }
        let token_amount = match token_amount(paid_amount, self.token_price) {
            Some(amount) => amount,
            None => {
                return Err(IcoError::InsufficientSaleAsset);
            },
        };
        if token_amount > sale_balance {
            return Err(IcoError::InsufficientSaleAsset);
        }
        let locked_token_amount = match locked_token_amount(paid_amount, self.token_price) {
            Some(amount) => amount,
            None => {
                return Err(IcoError::InsufficientLockedAsset);
            },
        };
        if locked_token_amount > locked_balance {
            return Err(IcoError::InsufficientLockedAsset);
        }
        let total = prior + paid_amount;
        self.record(caller, total);
        Ok(Purchase { token_amount, locked_token_amount })
    }

    fn withdraw_egld(&self, caller_is_owner: bool, egld_balance: u128) -> (r: Result<
        u128,
        IcoError,
    >) {
        if !caller_is_owner {
            return Err(IcoError::Unauthorized);
        }
        if egld_balance == 0 {
            return Err(IcoError::InsufficientFunds);
        }
        Ok(egld_balance)
    }

    fn withdraw_esdt(&self, caller_is_owner: bool, amount: u128, balance: u128) -> (r: Result<
        u128,
        IcoError,
    >) {
        if !caller_is_owner {
            return Err(IcoError::Unauthorized);
        }
        if amount > balance {
            return Err(IcoError::InsufficientFunds);
        }
        Ok(amount)
    }

    fn token_id(&self) -> (r: &TokenId) {
        &self.token_id
    }

    fn locked_token_id(&self) -> (r: &TokenId) {
        &self.locked_token_id
    }

    fn token_price(&self) -> (r: u128) {
        self.token_price
    }

    fn min_buy_limit(&self) -> (r: u128) {
        self.min_buy_limit
    }

    fn max_buy_limit(&self) -> (r: u128) {
        self.max_buy_limit
    }

    fn sale_started(&self) -> (r: bool) {
        self.sale_started
    }

    fn is_allowlist_enabled(&self) -> (r: bool) {
        self.allowlist_enabled
    }
}

impl Sale {
    /// Sets the ledger entry of `buyer` to `total`.
    fn record(&mut self, buyer: Address, total: u128)
        requires
            old(self).wf(),
            total <= old(self).max_buy_limit,
        ensures
            final(self).wf(),
            final(self).state() == (IcoState {
                bought: old(self).state().bought.insert(buyer, total as nat),
                ..old(self).state()
            }),
    {
        let ghost pre = self.ledger@;
        let ghost bought = self.bought@;
        let ghost max = self.max_buy_limit as nat;
        proof {
            reveal(ledger_wf);
        }
        let found = find_entry(&self.ledger, &buyer);
        let ghost idx: int = match found {
            Some(i) => i as int,
            None => pre.len() as int,
        };
        match found {
            Some(i) => {
                self.ledger.set(i, (buyer, total));
            },
            None => {
                self.ledger.push((buyer, total));
            },
        }
        self.bought = Ghost(bought.insert(buyer, total as nat));
        proof {
            let post = self.ledger@;
            let nb = self.bought@;
            assert(post.len() >= pre.len());
            assert(forall|k: int| 0 <= k < pre.len() && pre[k].0 != buyer ==> post[k] == pre[k]);
            assert(0 <= idx < post.len() && post[idx] == (buyer, total));
            assert(forall|k: int| pre.len() <= k < post.len() ==> post[k] == (buyer, total));
            assert forall|k: int, j: int|
                0 <= k < post.len() && 0 <= j < post.len() && k != j implies #[trigger] post[k].0
                != #[trigger] post[j].0 by {
                if post[k].0 == buyer && post[j].0 == buyer {
                    if k < pre.len() && j < pre.len() {
                        assert(pre[k].0 == buyer || pre[j].0 == buyer);
                    }
                }
            }
            assert forall|k: int| 0 <= k < post.len() implies nb.contains_key(
                #[trigger] post[k].0,
            ) && nb[post[k].0] == post[k].1 by {
                if post[k].0 != buyer {
                    assert(post[k] == pre[k]);
                }
            }
            assert forall|a: Address| #[trigger] nb.contains_key(a) implies exists|k: int|
                0 <= k < post.len() && #[trigger] post[k].0 == a by {
                if a != buyer {
                    let k = choose|k: int| 0 <= k < pre.len() && #[trigger] pre[k].0 == a;
                    assert(post[k] == pre[k]);
                } else {
                    assert(post[idx].0 == a);
                }
            }
            assert(ledger_wf(post, nb, max));
        }
    }
}

} // verus!
