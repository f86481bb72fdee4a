//! The vault: share token operations and the four asset entry points.
//!
//! The assets the vault holds are kept by an outside custodian, so every
//! operation that prices shares takes the custodian's current balance,
//! `total_assets`, as an argument. Moving assets in or out is left to the
//! caller: for deposit and mint it must have received the assets before it
//! commits the new shares, for withdraw and redeem it pays out only after the
//! shares are burned.
use crate::convert::{assets_for, checked, fits_amount, scale, shares_for, AMOUNT_MAX};
use crate::error::Error;
use crate::ledger::Ledger;
use vstd::arithmetic::div_mod::{lemma_div_multiples_vanish, lemma_fundamental_div_mod};
use vstd::prelude::*;

verus! {

/// Display metadata and the asset, fixed at initialization.
struct VaultInfo {
    asset: u64,
    name: String,
    symbol: String,
    decimals: u32,
}

/// A tokenized vault over one outside asset.
pub struct VaultContract {
    id: u64,
    info: Option<VaultInfo>,
    ledger: Ledger,
}

/// The outcome of depositing `assets`: the shares issued, or why not.
pub open spec fn deposit_outcome(assets: int, supply: int, total: int) -> Result<i128, Error> {
    let shares = shares_for(assets, supply, total, false);
    if assets <= 0 {
        Err(Error::ZeroAssets)
    } else if !fits_amount(shares) {
        Err(Error::Overflow)
    } else if shares <= 0 {
        Err(Error::ZeroShares)
    } else if supply + shares > i128::MAX {
        Err(Error::Overflow)
    } else {
        Ok(shares as i128)
    }
}

/// The outcome of minting `shares`: the assets they cost, or why not.
pub open spec fn mint_outcome(shares: int, supply: int, total: int) -> Result<i128, Error> {
    let assets = assets_for(shares, supply, total, true);
    if shares <= 0 {
        Err(Error::ZeroShares)
    } else if !fits_amount(assets) {
        Err(Error::Overflow)
    } else if assets <= 0 {
        Err(Error::ZeroAssets)
    } else if supply + shares > i128::MAX {
        Err(Error::Overflow)
    } else {
        Ok(assets as i128)
    }
}

/// The shares that withdrawing `assets` burns, or why the amounts are refused
/// (before allowance and balance are consulted).
pub open spec fn withdraw_price(assets: int, supply: int, total: int) -> Result<i128, Error> {
    let shares = shares_for(assets, supply, total, true);
    if assets <= 0 {
        Err(Error::ZeroAssets)
    } else if !fits_amount(shares) {
        Err(Error::Overflow)
    } else if shares <= 0 {
        Err(Error::ZeroShares)
    } else {
        Ok(shares as i128)
    }
}

/// The assets that redeeming `shares` pays, or why the amounts are refused
/// (before allowance and balance are consulted).
pub open spec fn redeem_price(shares: int, supply: int, total: int) -> Result<i128, Error> {
    let assets = assets_for(shares, supply, total, false);
    if shares <= 0 {
        Err(Error::ZeroShares)
    } else if !fits_amount(assets) {
        Err(Error::Overflow)
    } else if assets <= 0 {
        Err(Error::ZeroAssets)
    } else {
        Ok(assets as i128)
    }
}

impl VaultContract {
    /// The vault's own account, the identity under which it acts.
    pub closed spec fn account_id(&self) -> u64 {
        self.id
    }

    /// Whether the asset and metadata have been fixed.
    pub closed spec fn initialized(&self) -> bool {
        self.info is Some
    }

    /// The shares held by `account`.
    pub closed spec fn balance(&self, account: u64) -> int {
        self.ledger.balance(account)
    }

    /// The shares that `spender` may move out of `owner`'s balance.
    pub closed spec fn allowance_of(&self, owner: u64, spender: u64) -> int {
        self.ledger.allowance_of(owner, spender)
    }

    /// The total share supply.
    pub closed spec fn supply(&self) -> int {
        self.ledger.supply()
    }

    /// The sum of the balances of all accounts.
    pub closed spec fn sum_of_balances(&self) -> int {
        self.ledger.sum_of_balances()
    }

    /// The share token's name, "Vault" until initialized.
    pub closed spec fn name_view(&self) -> Seq<char> {
        match self.info {
            Some(info) => info.name@,
            None => "Vault"@,
        }
    }

    /// The share token's symbol, "VAULT" until initialized.
    pub closed spec fn symbol_view(&self) -> Seq<char> {
        match self.info {
            Some(info) => info.symbol@,
            None => "VAULT"@,
        }
    }

    /// The share token's decimals, 18 until initialized.
    pub closed spec fn decimals_view(&self) -> u32 {
        match self.info {
            Some(info) => info.decimals,
            None => 18,
        }
    }

    /// The account of the outside asset, once initialized.
    pub closed spec fn asset_view(&self) -> u64 {
        self.info->Some_0.asset
    }

    /// The vault's invariant: its ledger is well formed.
    pub closed spec fn wf(&self) -> bool {
        self.ledger.wf()
    }

    /// Everything but the ledger is as in `old`.
    pub open spec fn same_setup(&self, old: &VaultContract) -> bool {
        &&& self.account_id() == old.account_id()
        &&& self.initialized() == old.initialized()
        &&& self.name_view() == old.name_view()
        &&& self.symbol_view() == old.symbol_view()
        &&& self.decimals_view() == old.decimals_view()
        &&& self.asset_view() == old.asset_view()
    }

    /// Allowances are as in `old`, except possibly `owner`'s to `spender`.
    pub open spec fn allowances_kept_but(
        &self,
        old: &VaultContract,
        owner: u64,
        spender: u64,
    ) -> bool {
        forall|o: u64, s: u64|
            (o, s) != (owner, spender) ==> #[trigger] self.allowance_of(o, s) == old.allowance_of(
                o,
                s,
            )
    }

    /// Balances are as in `old`, except possibly those of `a` and `b`.
    pub open spec fn balances_kept_but(&self, old: &VaultContract, a: u64, b: u64) -> bool {
        forall|x: u64| x != a && x != b ==> #[trigger] self.balance(x) == old.balance(x)
    }

    /// A well-formed vault's supply is the sum of all balances, no balance is
    /// negative or above the supply, and no allowance is negative.
    pub proof fn lemma_wf(&self, account: u64, owner: u64, spender: u64)
        requires
            self.wf(),
        ensures
            self.supply() == self.sum_of_balances(),
            0 <= self.balance(account) <= self.supply() <= i128::MAX,
            0 <= self.allowance_of(owner, spender) <= i128::MAX,
    {
        self.ledger.lemma_wf(account, owner, spender);
    }

    /// A vault acting as account `id`, not yet initialized, with no shares.
    pub fn new(id: u64) -> (r: VaultContract)
        ensures
            r.wf(),
            r.account_id() == id,
            !r.initialized(),
            r.supply() == 0,
            forall|a: u64| r.balance(a) == 0,
            forall|o: u64, s: u64| r.allowance_of(o, s) == 0,
    {
        VaultContract { id, info: None, ledger: Ledger::new() }
    }

    /// A vault acting as account `id`, not yet initialized, whose shares are
    /// those recorded in `ledger`.
    pub fn from_ledger(id: u64, ledger: Ledger) -> (r: VaultContract)
        requires
            ledger.wf(),
        ensures
            r.wf(),
            r.account_id() == id,
            !r.initialized(),
            r.supply() == ledger.supply(),
            forall|a: u64| #[trigger] r.balance(a) == ledger.balance(a),
            forall|o: u64, s: u64| #[trigger] r.allowance_of(o, s) == ledger.allowance_of(o, s),
    {
        VaultContract { id, info: None, ledger }
    }

    /// The share ledger.
    pub fn ledger(&self) -> (r: &Ledger)
        ensures
            r.wf() == self.wf(),
            r.supply() == self.supply(),
            forall|a: u64| #[trigger] r.balance(a) == self.balance(a),
            forall|o: u64, s: u64| #[trigger] r.allowance_of(o, s) == self.allowance_of(o, s),
    {
        &self.ledger
    }

    /// Fixes the asset and the display metadata. Refused with
    /// `InvalidAddress`, changing nothing, when already initialized.
    pub fn initialize(&mut self, asset: u64, name: String, symbol: String, decimals: u32) -> (r:
        Result<(), Error>)
        requires
            old(self).wf(),
        ensures
            final(self).wf(),
            old(self).initialized() ==> r == Err::<(), Error>(Error::InvalidAddress)
                && *final(self) == *old(self),
            !old(self).initialized() ==> {
                &&& r is Ok
                &&& final(self).initialized()
                &&& final(self).asset_view() == asset
                &&& final(self).name_view() == name@
                &&& final(self).symbol_view() == symbol@
                &&& final(self).decimals_view() == decimals
                &&& final(self).account_id() == old(self).account_id()
                &&& final(self).supply() == old(self).supply()
                &&& forall|a: u64| #[trigger] final(self).balance(a) == old(self).balance(a)
                &&& forall|o: u64, sp: u64| #[trigger]
                    final(self).allowance_of(o, sp) == old(self).allowance_of(o, sp)
            },
    {
        if self.info.is_some() {
            return Err(Error::InvalidAddress);
        }
        self.info = Some(VaultInfo { asset, name, symbol, decimals });
        Ok(())
    }

    /// The vault's own account.
    pub fn id(&self) -> (r: u64)
        ensures
            r == self.account_id(),
    {
        self.id
    }

    /// The share token's name; "Vault" before initialization.
    pub fn name(&self) -> (r: String)
        ensures
            r@ == self.name_view(),
    {
        match &self.info {
            Some(info) => info.name.clone(),
            None => "Vault".to_owned(),
        }
    }

    /// The share token's symbol; "VAULT" before initialization.
    pub fn symbol(&self) -> (r: String)
        ensures
            r@ == self.symbol_view(),
    {
        match &self.info {
            Some(info) => info.symbol.clone(),
            None => "VAULT".to_owned(),
        }
    }

    /// The share token's decimals; 18 before initialization.
    pub fn decimals(&self) -> (r: u32)
        ensures
            r == self.decimals_view(),
    {
        match &self.info {
            Some(info) => info.decimals,
            None => 18,
        }
    }

    /// The account of the outside asset.
    pub fn asset(&self) -> (r: u64)
        requires
            self.initialized(),
        ensures
            r == self.asset_view(),
    {
        match &self.info {
            Some(info) => info.asset,
            None => 0,
        }
    }

    /// The total share supply.
    pub fn total_supply(&self) -> (r: i128)
        ensures
            r == self.supply(),
    {
        self.ledger.total_supply()
    }

    /// The shares held by `account`.
    pub fn balance_of(&self, account: u64) -> (r: i128)
        requires
            self.wf(),
        ensures
            r == self.balance(account),
    {
        self.ledger.balance_of(account)
    }

    /// The shares that `spender` may move out of `owner`'s balance.
    pub fn allowance(&self, owner: u64, spender: u64) -> (r: i128)
        requires
            self.wf(),
        ensures
            r == self.allowance_of(owner, spender),
    {
        self.ledger.allowance(owner, spender)
    }

    /// Moves `amount` shares from `from` to `to`. Refused with
    /// `InsufficientBalance`, changing nothing, when `from` holds fewer.
    pub fn transfer(&mut self, from: u64, to: u64, amount: i128) -> (r: Result<bool, Error>)
        requires
            old(self).wf(),
            amount >= 0,
        ensures
            final(self).wf(),
            final(self).same_setup(old(self)),
            forall|o: u64, s: u64| #[trigger]
                final(self).allowance_of(o, s) == old(self).allowance_of(o, s),
            r == if old(self).balance(from) < amount {
                Err::<bool, Error>(Error::InsufficientBalance)
            } else {
                Ok(true)
            },
            r is Err ==> *final(self) == *old(self),
            r is Ok ==> {
                &&& final(self).supply() == old(self).supply()
                &&& from != to ==> final(self).balance(from) == old(self).balance(from) - amount
                &&& from != to ==> final(self).balance(to) == old(self).balance(to) + amount
                &&& from == to ==> final(self).balance(from) == old(self).balance(from)
                &&& final(self).balances_kept_but(old(self), from, to)
            },
    {
        match self.ledger.transfer(from, to, amount) {
            Ok(()) => Ok(true),
            Err(e) => Err(e),
        }
    }

    /// Sets the allowance of `spender` over `from`'s shares to `amount`,
    /// replacing the previous one.
    pub fn approve(&mut self, from: u64, spender: u64, amount: i128) -> (r: bool)
        requires
            old(self).wf(),
            amount >= 0,
        ensures
            r,
            final(self).wf(),
            final(self).same_setup(old(self)),
            final(self).allowance_of(from, spender) == amount,
            final(self).allowances_kept_but(old(self), from, spender),
            final(self).supply() == old(self).supply(),
            forall|a: u64| #[trigger] final(self).balance(a) == old(self).balance(a),
    {
        self.ledger.set_allowance(from, spender, amount);
        true
    }

    /// Moves `amount` shares from `from` to `to` on behalf of `spender`,
    /// spending its allowance. Refused with `InsufficientAllowance` when the
    /// allowance is below `amount`, else with `InsufficientBalance` when
    /// `from` holds fewer; a refusal changes nothing. The largest amount as an
    /// allowance is unlimited and is never decremented.
    pub fn transfer_from(&mut self, spender: u64, from: u64, to: u64, amount: i128) -> (r: Result<
        bool,
        Error,
    >)
        requires
            old(self).wf(),
            amount >= 0,
        ensures
            final(self).wf(),
            final(self).same_setup(old(self)),
            r == if old(self).allowance_of(from, spender) < amount {
                Err::<bool, Error>(Error::InsufficientAllowance)
            } else if old(self).balance(from) < amount {
                Err::<bool, Error>(Error::InsufficientBalance)
            } else {
                Ok(true)
            },
            r is Err ==> *final(self) == *old(self),
            r is Ok ==> {
                &&& final(self).allowance_of(from, spender) == if old(self).allowance_of(
                    from,
                    spender,
                ) == i128::MAX {
                    i128::MAX as int
                } else {
                    old(self).allowance_of(from, spender) - amount
                }
                &&& final(self).allowances_kept_but(old(self), from, spender)
                &&& final(self).supply() == old(self).supply()
                &&& from != to ==> final(self).balance(from) == old(self).balance(from) - amount
                &&& from != to ==> final(self).balance(to) == old(self).balance(to) + amount
                &&& from == to ==> final(self).balance(from) == old(self).balance(from)
                &&& final(self).balances_kept_but(old(self), from, to)
            },
    {
        let allowance = self.ledger.allowance(from, spender);
        if allowance < amount {
            return Err(Error::InsufficientAllowance);
        }
        if self.ledger.balance_of(from) < amount {
            return Err(Error::InsufficientBalance);
        }
        if allowance != AMOUNT_MAX {
            self.ledger.set_allowance(from, spender, allowance - amount);
        }
        match self.ledger.transfer(from, to, amount) {
            Ok(()) => Ok(true),
            Err(e) => Err(e),
        }
    }

    /// The refusal, if any, that burning `shares` of `owner`'s on the vault's
    /// own behalf meets: a missing allowance to the vault when `owner` is
    /// another account, else a short balance.
    pub open spec fn burn_refusal(&self, owner: u64, shares: int) -> Option<Error> {
        if owner != self.account_id() && self.allowance_of(owner, self.account_id()) < shares {
            Some(Error::InsufficientAllowance)
        } else if self.balance(owner) < shares {
            Some(Error::InsufficientBalance)
        } else {
            None
        }
    }

    /// The ledger after a successful burn of `shares` from `owner` by the
    /// vault: balance and supply shrink, and the vault's allowance from
    /// another owner is spent unless unlimited.
    pub open spec fn burned_from(&self, old: &VaultContract, owner: u64, shares: int) -> bool {
        let id = old.account_id();
        &&& self.supply() == old.supply() - shares
        &&& self.balance(owner) == old.balance(owner) - shares
        &&& self.balances_kept_but(old, owner, owner)
        &&& self.allowance_of(owner, id) == if owner != id && old.allowance_of(owner, id)
            != i128::MAX {
            old.allowance_of(owner, id) - shares
        } else {
            old.allowance_of(owner, id)
        }
        &&& self.allowances_kept_but(old, owner, id)
    }

    /// The ledger after `shares` new shares went to `receiver`.
    pub open spec fn minted_to(&self, old: &VaultContract, receiver: u64, shares: int) -> bool {
        &&& self.supply() == old.supply() + shares
        &&& self.balance(receiver) == old.balance(receiver) + shares
        &&& self.balances_kept_but(old, receiver, receiver)
        &&& forall|o: u64, s: u64| #[trigger] self.allowance_of(o, s) == old.allowance_of(o, s)
    }

    fn to_shares(&self, assets: i128, total_assets: i128, round_up: bool) -> (r: Option<i128>)
        requires
            self.wf(),
            total_assets >= 0,
        ensures
            r == checked(shares_for(assets as int, self.supply(), total_assets as int, round_up)),
    {
        proof {
            self.lemma_wf(0, 0, 0);
        }
        scale(assets, self.ledger.total_supply(), total_assets, round_up)
    }

    fn to_assets(&self, shares: i128, total_assets: i128, round_up: bool) -> (r: Option<i128>)
        requires
            self.wf(),
            total_assets >= 0,
        ensures
            r == checked(assets_for(shares as int, self.supply(), total_assets as int, round_up)),
    {
        proof {
            self.lemma_wf(0, 0, 0);
        }
        scale(shares, total_assets, self.ledger.total_supply(), round_up)
    }

    /// Shares worth `assets` while the vault holds `total_assets`, rounded
    /// down; `None` when the result is not representable.
    pub fn convert_to_shares(&self, assets: i128, total_assets: i128) -> (r: Option<i128>)
        requires
            self.wf(),
            total_assets >= 0,
        ensures
            r == checked(shares_for(assets as int, self.supply(), total_assets as int, false)),
    {
        self.to_shares(assets, total_assets, false)
    }

    /// Assets worth `shares` while the vault holds `total_assets`, rounded
    /// down; `None` when the result is not representable.
    pub fn convert_to_assets(&self, shares: i128, total_assets: i128) -> (r: Option<i128>)
        requires
            self.wf(),
            total_assets >= 0,
        ensures
            r == checked(assets_for(shares as int, self.supply(), total_assets as int, false)),
    {
        self.to_assets(shares, total_assets, false)
    }

    /// Deposits are unbounded.
    pub fn max_deposit(&self, _receiver: u64) -> (r: i128)
        ensures
            r == i128::MAX,
    {
        AMOUNT_MAX
    }

    /// Mints are unbounded.
    pub fn max_mint(&self, _receiver: u64) -> (r: i128)
        ensures
            r == i128::MAX,
    {
        AMOUNT_MAX
    }

    /// The assets worth `owner`'s whole balance, rounded down.
    pub fn max_withdraw(&self, owner: u64, total_assets: i128) -> (r: Option<i128>)
        requires
            self.wf(),
            total_assets >= 0,
        ensures
            r == checked(assets_for(self.balance(owner), self.supply(), total_assets as int, false)),
    {
        let shares = self.ledger.balance_of(owner);
        self.to_assets(shares, total_assets, false)
    }

    /// `owner`'s whole balance.
    pub fn max_redeem(&self, owner: u64) -> (r: i128)
        requires
            self.wf(),
        ensures
            r == self.balance(owner),
    {
        self.ledger.balance_of(owner)
    }

    /// The shares a deposit of `assets` would issue (rounded down).
    pub fn preview_deposit(&self, assets: i128, total_assets: i128) -> (r: Option<i128>)
        requires
            self.wf(),
            total_assets >= 0,
        ensures
            r == checked(shares_for(assets as int, self.supply(), total_assets as int, false)),
    {
        self.to_shares(assets, total_assets, false)
    }

    /// The assets a mint of `shares` would cost (rounded up).
    pub fn preview_mint(&self, shares: i128, total_assets: i128) -> (r: Option<i128>)
        requires
            self.wf(),
            total_assets >= 0,
        ensures
            r == checked(assets_for(shares as int, self.supply(), total_assets as int, true)),
    {
        self.to_assets(shares, total_assets, true)
    }

    /// The shares a withdrawal of `assets` would burn (rounded up).
    pub fn preview_withdraw(&self, assets: i128, total_assets: i128) -> (r: Option<i128>)
        requires
            self.wf(),
            total_assets >= 0,
        ensures
            r == checked(shares_for(assets as int, self.supply(), total_assets as int, true)),
    {
        self.to_shares(assets, total_assets, true)
    }

    /// The assets a redemption of `shares` would pay (rounded down).
    pub fn preview_redeem(&self, shares: i128, total_assets: i128) -> (r: Option<i128>)
        requires
            self.wf(),
            total_assets >= 0,
        ensures
            r == checked(assets_for(shares as int, self.supply(), total_assets as int, false)),
    {
        self.to_assets(shares, total_assets, false)
    }

    /// Issues to `receiver` the shares worth `assets`, rounded down, while
    /// the vault holds `total_assets` before the deposit. The caller must have
    /// taken the assets in before it keeps the result. A refusal changes
    /// nothing.
    pub fn deposit(&mut self, assets: i128, receiver: u64, total_assets: i128) -> (r: Result<
        i128,
        Error,
    >)
        requires
            old(self).wf(),
            total_assets >= 0,
        ensures
            final(self).wf(),
            final(self).same_setup(old(self)),
            r == deposit_outcome(assets as int, old(self).supply(), total_assets as int),
            r is Err ==> *final(self) == *old(self),
            r matches Ok(shares) ==> final(self).minted_to(old(self), receiver, shares as int),
    {
        if assets <= 0 {
            return Err(Error::ZeroAssets);
        }
        let shares = match self.to_shares(assets, total_assets, false) {
            Some(s) => s,
            None => {
                return Err(Error::Overflow);
            },
        };
        if shares <= 0 {
            return Err(Error::ZeroShares);
        }
        match self.ledger.mint(receiver, shares) {
            Ok(()) => Ok(shares),
            Err(e) => Err(e),
        }
    }

    /// Issues `shares` to `receiver` for the assets they are worth, rounded
    /// up, while the vault holds `total_assets` before the mint. Returns the
    /// assets the caller must take in before it keeps the result. A refusal
    /// changes nothing.
    pub fn mint(&mut self, shares: i128, receiver: u64, total_assets: i128) -> (r: Result<
        i128,
        Error,
    >)
        requires
            old(self).wf(),
            total_assets >= 0,
        ensures
            final(self).wf(),
            final(self).same_setup(old(self)),
            r == mint_outcome(shares as int, old(self).supply(), total_assets as int),
            r is Err ==> *final(self) == *old(self),
            r is Ok ==> final(self).minted_to(old(self), receiver, shares as int),
    {
        if shares <= 0 {
            return Err(Error::ZeroShares);
        }
        let assets = match self.to_assets(shares, total_assets, true) {
            Some(a) => a,
            None => {
                return Err(Error::Overflow);
            },
        };
        if assets <= 0 {
            return Err(Error::ZeroAssets);
        }
        match self.ledger.mint(receiver, shares) {
            Ok(()) => Ok(assets),
            Err(e) => Err(e),
        }
    }

    /// Burns `shares` of `owner`'s, spending the vault's allowance from
    /// another owner unless it is unlimited.
    fn spend_and_burn(&mut self, owner: u64, shares: i128) -> (r: Result<(), Error>)
        requires
            old(self).wf(),
            shares > 0,
        ensures
            final(self).wf(),
            final(self).same_setup(old(self)),
            r == match old(self).burn_refusal(owner, shares as int) {
                Some(e) => Err::<(), Error>(e),
                None => Ok(()),
            },
            r is Err ==> *final(self) == *old(self),
            r is Ok ==> final(self).burned_from(old(self), owner, shares as int),
    {
        let id = self.id;
        let mut allowance: i128 = 0;
        if owner != id {
            allowance = self.ledger.allowance(owner, id);
            if allowance < shares {
                return Err(Error::InsufficientAllowance);
            }
        }
        if self.ledger.balance_of(owner) < shares {
            return Err(Error::InsufficientBalance);
        }
        if owner != id && allowance != AMOUNT_MAX {
            self.ledger.set_allowance(owner, id, allowance - shares);
        }
        match self.ledger.burn(owner, shares) {
            Ok(()) => Ok(()),
            Err(e) => Err(e),
        }
    }

    /// Burns the shares worth `assets`, rounded up, from `owner`, while the
    /// vault holds `total_assets` before the withdrawal. The caller pays the
    /// assets out after this succeeds. When `owner` is not the vault, the
    /// vault's allowance from `owner` must cover the shares and is spent
    /// unless unlimited. Returns the shares burned; a refusal changes nothing.
    pub fn withdraw(&mut self, assets: i128, owner: u64, total_assets: i128) -> (r: Result<
        i128,
        Error,
    >)
        requires
            old(self).wf(),
            total_assets >= 0,
        ensures
            final(self).wf(),
            final(self).same_setup(old(self)),
            r == match withdraw_price(assets as int, old(self).supply(), total_assets as int) {
                Err(e) => Err(e),
                Ok(shares) => match old(self).burn_refusal(owner, shares as int) {
                    Some(e) => Err(e),
                    None => Ok(shares),
                },
            },
            r is Err ==> *final(self) == *old(self),
            r matches Ok(shares) ==> final(self).burned_from(old(self), owner, shares as int),
    {
        if assets <= 0 {
            return Err(Error::ZeroAssets);
        }
        let shares = match self.to_shares(assets, total_assets, true) {
            Some(s) => s,
            None => {
                return Err(Error::Overflow);
            },
        };
        if shares <= 0 {
            return Err(Error::ZeroShares);
        }
        match self.spend_and_burn(owner, shares) {
            Ok(()) => Ok(shares),
            Err(e) => Err(e),
        }
    }

    /// Burns `shares` from `owner` for the assets they are worth, rounded
    /// down, while the vault holds `total_assets` before the redemption. The
    /// caller pays the returned assets out after this succeeds. Allowance as
    /// for `withdraw`; a refusal changes nothing.
    pub fn redeem(&mut self, shares: i128, owner: u64, total_assets: i128) -> (r: Result<
        i128,
        Error,
    >)
        requires
            old(self).wf(),
            total_assets >= 0,
        ensures
            final(self).wf(),
            final(self).same_setup(old(self)),
            r == match redeem_price(shares as int, old(self).supply(), total_assets as int) {
                Err(e) => Err(e),
                Ok(assets) => match old(self).burn_refusal(owner, shares as int) {
                    Some(e) => Err(e),
                    None => Ok(assets),
                },
            },
            r is Err ==> *final(self) == *old(self),
            r is Ok ==> final(self).burned_from(old(self), owner, shares as int),
    {
        if shares <= 0 {
            return Err(Error::ZeroShares);
        }
        let assets = match self.to_assets(shares, total_assets, false) {
            Some(a) => a,
            None => {
                return Err(Error::Overflow);
            },
        };
        if assets <= 0 {
            return Err(Error::ZeroAssets);
        }
        match self.spend_and_burn(owner, shares) {
            Ok(()) => Ok(assets),
            Err(e) => Err(e),
        }
    }
}

/// Every operation keeps the vault well formed, so after any sequence of
/// operations the total supply equals the sum of all balances.
pub proof fn lemma_supply_is_sum_of_balances(v: &VaultContract)
    requires
        v.wf(),
    ensures
        v.supply() == v.sum_of_balances(),
{
    v.lemma_wf(0, 0, 0);
}

/// The queries read the state and nothing else: two vaults with the same
/// supply and balances, asked the same question against the same custodian
/// balance, give the same answer. Asking twice with unchanged state is the
/// case `v1 == v2`; the queries take the vault by shared reference, so they
/// change nothing.
pub proof fn lemma_queries_depend_on_state(
    v1: &VaultContract,
    v2: &VaultContract,
    amount: int,
    owner: u64,
    total: int,
)
    requires
        v1.supply() == v2.supply(),
        v1.balance(owner) == v2.balance(owner),
    ensures
        shares_for(amount, v1.supply(), total, false) == shares_for(
            amount,
            v2.supply(),
            total,
            false,
        ),
        shares_for(amount, v1.supply(), total, true) == shares_for(
            amount,
            v2.supply(),
            total,
            true,
        ),
        assets_for(amount, v1.supply(), total, false) == assets_for(
            amount,
            v2.supply(),
            total,
            false,
        ),
        assets_for(amount, v1.supply(), total, true) == assets_for(
            amount,
            v2.supply(),
            total,
            true,
        ),
        assets_for(v1.balance(owner), v1.supply(), total, false) == assets_for(
            v2.balance(owner),
            v2.supply(),
            total,
            false,
        ),
{
}

/// Depositing `assets` and at once redeeming every share it issued gives
/// back exactly `assets`, provided the exchange ratio did not move: the vault
/// was empty, or the deposit was priced without rounding.
pub proof fn lemma_deposit_then_redeem(assets: i128, supply: int, total: int)
    requires
        supply >= 0,
        total >= 0,
        (supply == 0 && total == 0) || (supply > 0 && total > 0 && (assets * supply) % total
            == 0),
    ensures
        deposit_outcome(assets as int, supply, total) matches Ok(shares) ==> redeem_price(
            shares as int,
            supply + shares,
            total + assets,
        ) == Ok::<i128, Error>(assets),
{
    if let Ok(shares) = deposit_outcome(assets as int, supply, total) {
        let a = assets as int;
        let sh = shares as int;
        if supply == 0 {
            assert(sh == a);
            lemma_div_multiples_vanish(a, a);
            assert(assets_for(sh, supply + sh, total + a, false) == a);
        } else {
            lemma_fundamental_div_mod(a * supply, total);
            assert(sh == (a * supply) / total);
            assert(sh * total == a * supply) by (nonlinear_arith)
                requires
                    a * supply == total * ((a * supply) / total) + (a * supply) % total,
                    (a * supply) % total == 0,
                    sh == (a * supply) / total,
            ;
            assert(sh * (total + a) == (supply + sh) * a) by (nonlinear_arith)
                requires
                    sh * total == a * supply,
            ;
            assert(supply + sh > 0);
            lemma_div_multiples_vanish(a, supply + sh);
            assert(assets_for(sh, supply + sh, total + a, false) == a);
        }
    }
}

} // verus!
