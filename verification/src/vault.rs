use vstd::prelude::*;
use crate::address::Address;
use crate::address_map::{
    AddressMap, keys_distinct, lemma_find_key, lemma_put, lemma_sum_bounds, lemma_sum_put,
    lemma_sum_take_next, lemma_sum_prefix_le, lookup, put, sum_by,
};
use crate::math::{floor_div, lemma_div_of_multiple, lemma_floor_div, lemma_quotient_upper};

verus! {

/// The share price's fixed-point scale: a price of `SHARE_PRICE_SCALE` means
/// one underlying token per share.
pub const SHARE_PRICE_SCALE: i128 = 1_000_000;

/// Why the vault refused a call; the state is left as it was.
#[derive(Clone, Copy, Debug, PartialEq, Eq, Structural)]
pub enum VaultError {
    /// `initialize` on a vault that already has an admin.
    AlreadyInitialized,
    /// A deposit into a vault that has no admin and no underlying token yet.
    NotInitialized,
    /// A deposit of zero or fewer tokens.
    NonPositiveAmount,
    /// A withdrawal of zero or fewer shares.
    NonPositiveShares,
    /// A withdrawal of more shares than the user holds.
    InsufficientShares,
    /// A result that does not fit in an `i128`.
    ArithmeticOverflow,
}

/// How a share balance counts in the total supply.
pub open spec fn share_measure() -> spec_fn(i128) -> int {
    |b: i128| b as int
}

/// The vault's state: its configuration, its two totals, and the share
/// balances in the order in which the holders first deposited.
pub struct VaultView {
    pub admin: Option<Address>,
    pub underlying_token: Option<Address>,
    pub total_shares: i128,
    pub total_assets: i128,
    pub holders: Seq<(Address, i128)>,
}

impl VaultView {
    /// A vault that was deployed and not initialized.
    pub open spec fn initial() -> VaultView {
        VaultView {
            admin: None,
            underlying_token: None,
            total_shares: 0,
            total_assets: 0,
            holders: Seq::empty(),
        }
    }

    /// The shares that `user` holds; 0 for one who never deposited.
    pub open spec fn balance_of(self, user: Address) -> i128 {
        match lookup(self.holders, user) {
            Some(b) => b,
            None => 0,
        }
    }

    /// The accounting invariant: each holder appears once with a
    /// non-negative balance, the balances add up to the total supply, the
    /// vault holds assets exactly when shares are outstanding, and nothing is
    /// held before the vault is initialized.
    pub open spec fn valid(self) -> bool {
        &&& keys_distinct(self.holders)
        &&& forall|i: int| 0 <= i < self.holders.len() ==> #[trigger] self.holders[i].1 >= 0
        &&& self.total_shares as int == sum_by(self.holders, share_measure())
        &&& self.total_assets >= 0
        &&& (self.total_shares == 0) == (self.total_assets == 0)
        &&& (self.admin is Some) == (self.underlying_token is Some)
        &&& self.admin is None ==> self.holders.len() == 0 && self.total_assets == 0
    }

    /// Shares minted for a deposit of `amount`: one per token into an empty
    /// vault, else `amount * total_shares / total_assets` rounded down.
    pub open spec fn minted_shares(self, amount: int) -> int {
        if self.total_assets == 0 {
            amount
        } else {
            amount * self.total_shares / (self.total_assets as int)
        }
    }

    /// Tokens returned for burning `shares`:
    /// `shares * total_assets / total_shares` rounded down.
    pub open spec fn redeemed_assets(self, shares: int) -> int {
        shares * self.total_assets / (self.total_shares as int)
    }

    /// `initialize`: sets the admin and the token once, with zero totals.
    pub open spec fn initialize(self, admin: Address, token: Address) -> (VaultView, Result<(), VaultError>) {
        if self.admin is Some {
            (self, Err(VaultError::AlreadyInitialized))
        } else {
            (
                VaultView {
                    admin: Some(admin),
                    underlying_token: Some(token),
                    total_shares: 0,
                    total_assets: 0,
                    ..self
                },
                Ok(()),
            )
        }
    }

    /// `deposit`: takes `amount` tokens from `from` and mints shares for them.
    pub open spec fn deposit(self, from: Address, amount: i128) -> (VaultView, Result<i128, VaultError>) {
        if amount <= 0 {
            (self, Err(VaultError::NonPositiveAmount))
        } else if self.admin is None {
            (self, Err(VaultError::NotInitialized))
        } else if self.total_assets != 0 && amount * self.total_shares > i128::MAX {
            (self, Err(VaultError::ArithmeticOverflow))
        } else {
            let minted = self.minted_shares(amount as int);
            if self.total_shares + minted > i128::MAX || self.total_assets + amount > i128::MAX {
                (self, Err(VaultError::ArithmeticOverflow))
            } else {
                (
                    VaultView {
                        total_shares: (self.total_shares + minted) as i128,
                        total_assets: (self.total_assets + amount) as i128,
                        holders: put(self.holders, from, (self.balance_of(from) + minted) as i128),
                        ..self
                    },
                    Ok(minted as i128),
                )
            }
        }
    }

    /// `withdraw`: burns `shares` of `from` and pays out their worth in tokens.
    pub open spec fn withdraw(self, from: Address, shares: i128) -> (VaultView, Result<i128, VaultError>) {
        if shares <= 0 {
            (self, Err(VaultError::NonPositiveShares))
        } else if self.balance_of(from) < shares {
            (self, Err(VaultError::InsufficientShares))
        } else if shares * self.total_assets > i128::MAX {
            (self, Err(VaultError::ArithmeticOverflow))
        } else {
            let out = self.redeemed_assets(shares as int);
            (
                VaultView {
                    total_shares: (self.total_shares - shares) as i128,
                    total_assets: (self.total_assets - out) as i128,
                    holders: put(self.holders, from, (self.balance_of(from) - shares) as i128),
                    ..self
                },
                Ok(out as i128),
            )
        }
    }

    /// `share_price`: tokens per share in six-decimal fixed point, 1.0 for a
    /// vault without shares.
    pub open spec fn share_price(self) -> Result<i128, VaultError> {
        if self.total_shares == 0 {
            Ok(SHARE_PRICE_SCALE)
        } else if self.total_assets * SHARE_PRICE_SCALE > i128::MAX {
            Err(VaultError::ArithmeticOverflow)
        } else {
            Ok(((self.total_assets * SHARE_PRICE_SCALE) / (self.total_shares as int)) as i128)
        }
    }
}

/// A valid state's balances are each at most the total supply.
pub proof fn lemma_balance_bounded(v: VaultView, user: Address)
    requires
        v.valid(),
    ensures
        0 <= v.balance_of(user) <= v.total_shares,
        v.total_shares >= 0,
{
    lemma_sum_bounds(v.holders, share_measure());
    lemma_find_key(v.holders, user);
    let i = crate::address_map::find_key(v.holders, user);
    if i >= 0 {
        assert(v.holders[i].1 >= 0);
        assert(share_measure()(v.holders[i].1) <= sum_by(v.holders, share_measure()));
    }
}

/// Setting one balance keeps the holder table consistent and moves the
/// supply sum by the change of that balance.
proof fn lemma_put_balance(v: VaultView, user: Address, b: i128)
    requires
        v.valid(),
        b >= 0,
    ensures
        keys_distinct(put(v.holders, user, b)),
        forall|i: int| 0 <= i < put(v.holders, user, b).len() ==> #[trigger] put(v.holders, user, b)[i].1 >= 0,
        sum_by(put(v.holders, user, b), share_measure()) == v.total_shares - v.balance_of(user) + b,
{
    let s = v.holders;
    lemma_put(s, user, b);
    lemma_sum_put(s, user, b, share_measure());
    lemma_find_key(s, user);
    let t = put(s, user, b);
    assert forall|i: int| 0 <= i < t.len() implies #[trigger] t[i].1 >= 0 by {
        if i < s.len() && i != crate::address_map::find_key(s, user) {
            assert(t[i] == s[i]);
        }
    }
}

/// Initialization keeps the accounting invariant.
pub proof fn lemma_initialize_keeps_valid(v: VaultView, admin: Address, token: Address)
    requires
        v.valid(),
    ensures
        v.initialize(admin, token).0.valid(),
{
}

/// A deposit keeps the accounting invariant.
pub proof fn lemma_deposit_keeps_valid(v: VaultView, from: Address, amount: i128)
    requires
        v.valid(),
    ensures
        v.deposit(from, amount).0.valid(),
{
    if amount > 0 && v.admin is Some {
        lemma_balance_bounded(v, from);
        if v.total_assets != 0 {
            lemma_floor_div(amount * v.total_shares, v.total_assets as int);
            assert(amount * v.total_shares >= 0) by (nonlinear_arith)
                requires
                    amount > 0,
                    v.total_shares >= 0,
            ;
        }
        let minted = v.minted_shares(amount as int);
        if !(v.total_assets != 0 && amount * v.total_shares > i128::MAX) && v.total_shares + minted
            <= i128::MAX && v.total_assets + amount <= i128::MAX {
            lemma_put_balance(v, from, (v.balance_of(from) + minted) as i128);
        }
    }
}

/// A withdrawal keeps the accounting invariant.
pub proof fn lemma_withdraw_keeps_valid(v: VaultView, from: Address, shares: i128)
    requires
        v.valid(),
    ensures
        v.withdraw(from, shares).0.valid(),
{
    if shares > 0 && v.balance_of(from) >= shares && shares * v.total_assets <= i128::MAX {
        lemma_balance_bounded(v, from);
        lemma_redeem_bounds(v, shares as int);
        lemma_put_balance(v, from, (v.balance_of(from) - shares) as i128);
    }
}

/// What burning `0 < shares <= total_shares` returns: at most the vault's
/// assets, all of them exactly when every share is burnt.
pub proof fn lemma_redeem_bounds(v: VaultView, shares: int)
    requires
        v.valid(),
        0 < shares <= v.total_shares,
    ensures
        0 <= v.redeemed_assets(shares) <= v.total_assets,
        v.redeemed_assets(shares) * v.total_shares <= shares * v.total_assets,
        shares == v.total_shares <==> v.redeemed_assets(shares) == v.total_assets,
{
    let ts = v.total_shares as int;
    let ta = v.total_assets as int;
    lemma_floor_div(shares * ta, ts);
    assert(shares * ta >= 0) by (nonlinear_arith)
        requires
            shares > 0,
            ta >= 0,
    ;
    assert(shares * ta <= ts * ta) by (nonlinear_arith)
        requires
            shares <= ts,
            ta >= 0,
    ;
    lemma_quotient_upper(v.redeemed_assets(shares), shares * ta, ts);
    if v.redeemed_assets(shares) > ta {
        assert(v.redeemed_assets(shares) * ts > ta * ts) by (nonlinear_arith)
            requires
                v.redeemed_assets(shares) > ta,
                ts > 0,
        ;
    }
    if shares == ts {
        assert(shares * ta == ta * ts) by (nonlinear_arith)
            requires
                shares == ts,
        ;
        lemma_div_of_multiple(ta, ts);
    } else {
        if v.redeemed_assets(shares) == ta {
            assert(ta * ts <= shares * ta);
            assert(ta > 0);
            assert(ta * ts > shares * ta) by (nonlinear_arith)
                requires
                    ta > 0,
                    shares < ts,
            ;
        }
    }
}

/// A refused call leaves the vault exactly as it was.
pub proof fn lemma_refusals_change_nothing(v: VaultView, user: Address, admin: Address, amount: i128)
    ensures
        v.initialize(admin, user).1 is Err ==> v.initialize(admin, user).0 == v,
        v.deposit(user, amount).1 is Err ==> v.deposit(user, amount).0 == v,
        v.withdraw(user, amount).1 is Err ==> v.withdraw(user, amount).0 == v,
{
}

/// A deposit or a withdrawal by one user leaves every other user's balance
/// as it was.
pub proof fn lemma_operations_leave_others_alone(v: VaultView, from: Address, other: Address, amount: i128)
    requires
        v.valid(),
        other != from,
    ensures
        v.deposit(from, amount).0.balance_of(other) == v.balance_of(other),
        v.withdraw(from, amount).0.balance_of(other) == v.balance_of(other),
{
    if v.deposit(from, amount).1 is Ok {
        lemma_put(v.holders, from, (v.balance_of(from) + v.minted_shares(amount as int)) as i128);
    }
    if v.withdraw(from, amount).1 is Ok {
        lemma_put(v.holders, from, (v.balance_of(from) - amount) as i128);
    }
}

/// The caller's balance and the total supply move by exactly the shares
/// minted or burnt, and the assets by exactly the tokens taken in or paid
/// out.
pub proof fn lemma_operations_move_caller_and_totals(v: VaultView, from: Address, amount: i128)
    requires
        v.valid(),
    ensures
        v.deposit(from, amount).1 matches Ok(m) ==> {
            &&& v.deposit(from, amount).0.balance_of(from) == v.balance_of(from) + m
            &&& v.deposit(from, amount).0.total_shares == v.total_shares + m
            &&& v.deposit(from, amount).0.total_assets == v.total_assets + amount
        },
        v.withdraw(from, amount).1 matches Ok(out) ==> {
            &&& v.withdraw(from, amount).0.balance_of(from) == v.balance_of(from) - amount
            &&& v.withdraw(from, amount).0.total_shares == v.total_shares - amount
            &&& v.withdraw(from, amount).0.total_assets == v.total_assets - out
        },
{
    lemma_balance_bounded(v, from);
    if v.deposit(from, amount).1 is Ok {
        lemma_minted_bound(v, amount as int);
        lemma_put(v.holders, from, (v.balance_of(from) + v.minted_shares(amount as int)) as i128);
    }
    if v.withdraw(from, amount).1 is Ok {
        lemma_put(v.holders, from, (v.balance_of(from) - amount) as i128);
    }
}

/// No dilution: a deposit never lowers the assets backing each share, since
/// the shares it mints are rounded down (`new_assets / new_shares >=
/// old_assets / old_shares`, written without division).
pub proof fn lemma_deposit_never_dilutes(v: VaultView, from: Address, amount: i128)
    requires
        v.valid(),
        v.deposit(from, amount).1 is Ok,
    ensures
        v.deposit(from, amount).0.total_assets * v.total_shares >= v.total_assets * v.deposit(from, amount).0.total_shares,
{
    let w = v.deposit(from, amount).0;
    let ts = v.total_shares as int;
    let ta = v.total_assets as int;
    let m = v.minted_shares(amount as int);
    lemma_minted_bound(v, amount as int);
    assert((ta + amount) * ts - ta * (ts + m) == amount * ts - m * ta) by (nonlinear_arith);
}

/// What a deposit of `amount > 0` mints is worth no more than the deposit:
/// `minted * total_assets <= amount * total_shares`, and one share per
/// token into an empty vault.
pub proof fn lemma_minted_bound(v: VaultView, amount: int)
    requires
        v.valid(),
        amount > 0,
    ensures
        v.minted_shares(amount) >= 0,
        v.minted_shares(amount) * v.total_assets <= amount * v.total_shares,
        v.total_assets == 0 ==> v.minted_shares(amount) == amount && v.total_shares == 0,
{
    lemma_sum_bounds(v.holders, share_measure());
    if v.total_assets != 0 {
        assert(amount * v.total_shares >= 0) by (nonlinear_arith)
            requires
                amount > 0,
                v.total_shares >= 0,
        ;
        lemma_floor_div(amount * v.total_shares, v.total_assets as int);
    }
}

/// No dilution: a withdrawal never lowers the assets backing each share,
/// since the tokens it pays out are rounded down.
pub proof fn lemma_withdraw_never_dilutes(v: VaultView, from: Address, shares: i128)
    requires
        v.valid(),
        v.withdraw(from, shares).1 is Ok,
    ensures
        v.withdraw(from, shares).0.total_assets * v.total_shares >= v.total_assets * v.withdraw(from, shares).0.total_shares,
{
    lemma_balance_bounded(v, from);
    lemma_redeem_bounds(v, shares as int);
    let ts = v.total_shares as int;
    let ta = v.total_assets as int;
    let out = v.redeemed_assets(shares as int);
    assert((ta - out) * ts - ta * (ts - shares) == shares * ta - out * ts) by (nonlinear_arith);
}

/// Fixed-point prices compare as the ratios they stand for.
pub proof fn lemma_price_follows_ratio(a: int, t: int, a2: int, t2: int)
    requires
        t > 0,
        t2 > 0,
        a >= 0,
        a2 * t >= a * t2,
    ensures
        (a * SHARE_PRICE_SCALE) / t <= (a2 * SHARE_PRICE_SCALE) / t2,
{
    let c = SHARE_PRICE_SCALE as int;
    let q = (a * c) / t;
    lemma_floor_div(a * c, t);
    assert(q * t <= a * c);
    assert(q * t * t2 <= a * c * t2) by (nonlinear_arith)
        requires
            q * t <= a * c,
            t2 > 0,
    ;
    assert(a * c * t2 <= a2 * c * t) by (nonlinear_arith)
        requires
            a2 * t >= a * t2,
            c > 0,
    ;
    assert(q * t2 <= a2 * c) by (nonlinear_arith)
        requires
            q * t * t2 <= a2 * c * t,
            t > 0,
    ;
    lemma_quotient_upper(q, a2 * c, t2);
}

/// The share price never falls through a deposit.
pub proof fn lemma_deposit_never_lowers_share_price(v: VaultView, from: Address, amount: i128)
    requires
        v.valid(),
        v.deposit(from, amount).1 is Ok,
        v.share_price() is Ok,
        v.deposit(from, amount).0.share_price() is Ok,
    ensures
        v.deposit(from, amount).0.share_price()->Ok_0 >= v.share_price()->Ok_0,
{
    let w = v.deposit(from, amount).0;
    lemma_deposit_keeps_valid(v, from, amount);
    lemma_minted_bound(v, amount as int);
    lemma_sum_bounds(v.holders, share_measure());
    lemma_sum_bounds(w.holders, share_measure());
    if v.total_shares == 0 {
        assert(w.total_assets == w.total_shares);
        let t = w.total_shares as int;
        lemma_div_of_multiple(SHARE_PRICE_SCALE as int, t);
        assert(t * SHARE_PRICE_SCALE == SHARE_PRICE_SCALE * t) by (nonlinear_arith);
    } else {
        lemma_deposit_never_dilutes(v, from, amount);
        lemma_price_follows_ratio(
            v.total_assets as int,
            v.total_shares as int,
            w.total_assets as int,
            w.total_shares as int,
        );
    }
}

/// The share price never falls through a withdrawal that leaves shares
/// outstanding (the last withdrawal resets it to 1.0).
pub proof fn lemma_withdraw_never_lowers_share_price(v: VaultView, from: Address, shares: i128)
    requires
        v.valid(),
        v.withdraw(from, shares).1 is Ok,
        v.withdraw(from, shares).0.total_shares > 0,
        v.share_price() is Ok,
        v.withdraw(from, shares).0.share_price() is Ok,
    ensures
        v.withdraw(from, shares).0.share_price()->Ok_0 >= v.share_price()->Ok_0,
{
    let w = v.withdraw(from, shares).0;
    lemma_balance_bounded(v, from);
    lemma_withdraw_never_dilutes(v, from, shares);
    lemma_withdraw_keeps_valid(v, from, shares);
    lemma_price_follows_ratio(
        v.total_assets as int,
        v.total_shares as int,
        w.total_assets as int,
        w.total_shares as int,
    );
}

/// Depositing and at once withdrawing the shares minted never returns more
/// tokens than were deposited.
pub proof fn lemma_round_trip_returns_at_most_deposit(v: VaultView, user: Address, amount: i128)
    requires
        v.valid(),
        v.deposit(user, amount).1 is Ok,
        v.deposit(user, amount).0.withdraw(user, v.deposit(user, amount).1->Ok_0).1 is Ok,
    ensures
        v.deposit(user, amount).0.withdraw(user, v.deposit(user, amount).1->Ok_0).1->Ok_0 <= amount,
{
    let (w, r) = v.deposit(user, amount);
    let m = r->Ok_0;
    lemma_deposit_keeps_valid(v, user, amount);
    lemma_minted_bound(v, amount as int);
    lemma_operations_move_caller_and_totals(v, user, amount);
    lemma_balance_bounded(w, user);
    lemma_balance_bounded(v, user);
    lemma_redeem_bounds(w, m as int);
    let out = w.redeemed_assets(m as int);
    let ts = v.total_shares as int;
    let ta = v.total_assets as int;
    assert(m * (ta + amount) <= amount * (ts + m)) by (nonlinear_arith)
        requires
            m * ta <= amount * ts,
    ;
    assert(out <= amount) by (nonlinear_arith)
        requires
            out * (ts + m) <= m * (ta + amount),
            m * (ta + amount) <= amount * (ts + m),
            ts + m > 0,
    ;
}

/// The last shares burnt take every token with them: withdrawing the whole
/// supply empties the vault.
pub proof fn lemma_full_withdrawal_empties_vault(v: VaultView, from: Address)
    requires
        v.valid(),
        v.withdraw(from, v.total_shares).1 is Ok,
    ensures
        v.withdraw(from, v.total_shares).0.total_shares == 0,
        v.withdraw(from, v.total_shares).0.total_assets == 0,
        v.withdraw(from, v.total_shares).0.balance_of(from) == 0,
        v.withdraw(from, v.total_shares).1->Ok_0 == v.total_assets,
{
    lemma_balance_bounded(v, from);
    lemma_redeem_bounds(v, v.total_shares as int);
    lemma_operations_move_caller_and_totals(v, from, v.total_shares);
}

/// With no source of yield, a share stays worth exactly one token: a vault
/// whose assets equal its shares keeps them equal through every operation,
/// and a freshly deployed vault starts that way.
pub proof fn lemma_shares_track_assets(v: VaultView, user: Address, admin: Address, amount: i128)
    requires
        v.valid(),
        v.total_assets == v.total_shares,
    ensures
        VaultView::initial().total_assets == VaultView::initial().total_shares,
        v.initialize(admin, user).0.total_assets == v.initialize(admin, user).0.total_shares,
        v.deposit(user, amount).0.total_assets == v.deposit(user, amount).0.total_shares,
        v.withdraw(user, amount).0.total_assets == v.withdraw(user, amount).0.total_shares,
        v.deposit(user, amount).1 matches Ok(m) ==> m == amount,
        v.withdraw(user, amount).1 matches Ok(out) ==> out == amount,
{
    lemma_sum_bounds(v.holders, share_measure());
    if v.total_assets != 0 {
        lemma_div_of_multiple(amount as int, v.total_assets as int);
        let t = v.total_shares as int;
        assert(amount * t == (amount as int) * t);
    }
    lemma_balance_bounded(v, user);
    if amount > 0 && v.balance_of(user) >= amount {
        lemma_div_of_multiple(amount as int, v.total_shares as int);
        assert(v.redeemed_assets(amount as int) == amount);
    }
}

/// When a deposit succeeds, and what it mints: on an initialized valid
/// vault, a deposit of `amount > 0` mints `amount` shares into an empty
/// vault and `amount * total_shares / total_assets` (rounded down)
/// otherwise; it is refused for overflow exactly when that product, the new
/// supply or the new assets leave the `i128` range.
pub proof fn lemma_deposit_outcome(v: VaultView, from: Address, amount: i128, minted: int)
    requires
        v.valid(),
        v.admin is Some,
        amount > 0,
        minted == if v.total_assets == 0 { amount as int } else { amount * v.total_shares / (v.total_assets as int) },
    ensures
        (v.total_assets == 0 || amount * v.total_shares <= i128::MAX) && v.total_shares + minted <= i128::MAX
            && v.total_assets + amount <= i128::MAX ==> v.deposit(from, amount).1 == Ok::<i128, VaultError>(
            minted as i128,
        ),
        v.deposit(from, amount).1 is Ok ==> {
            &&& v.deposit(from, amount).0.balance_of(from) == v.balance_of(from) + minted
            &&& v.deposit(from, amount).0.total_shares == v.total_shares + minted
            &&& v.deposit(from, amount).0.total_assets == v.total_assets + amount
        },
        !((v.total_assets == 0 || amount * v.total_shares <= i128::MAX) && v.total_shares + minted <= i128::MAX
            && v.total_assets + amount <= i128::MAX) ==> v.deposit(from, amount).1 == Err::<i128, VaultError>(
            VaultError::ArithmeticOverflow,
        ),
{
    lemma_minted_bound(v, amount as int);
    lemma_operations_move_caller_and_totals(v, from, amount);
}

/// When a withdrawal succeeds, and what it pays: burning `0 < shares` of a
/// balance that holds them pays `shares * total_assets / total_shares`
/// (rounded down), refused for overflow exactly when that product leaves the
/// `i128` range; too few shares are refused as such.
pub proof fn lemma_withdraw_outcome(v: VaultView, from: Address, shares: i128)
    requires
        v.valid(),
        shares > 0,
    ensures
        ({
            let ts = v.total_shares as int;
            let ta = v.total_assets as int;
            let paid = shares * ta / ts;
            &&& v.balance_of(from) < shares ==> v.withdraw(from, shares).1 == Err::<i128, VaultError>(
                VaultError::InsufficientShares,
            )
            &&& v.balance_of(from) >= shares && shares * ta <= i128::MAX ==> {
                &&& v.withdraw(from, shares).1 == Ok::<i128, VaultError>(paid as i128)
                &&& v.withdraw(from, shares).0.balance_of(from) == v.balance_of(from) - shares
                &&& v.withdraw(from, shares).0.total_shares == ts - shares
                &&& v.withdraw(from, shares).0.total_assets == ta - paid
            }
            &&& v.balance_of(from) >= shares && shares * ta > i128::MAX ==> v.withdraw(from, shares).1
                == Err::<i128, VaultError>(VaultError::ArithmeticOverflow)
        }),
{
    lemma_balance_bounded(v, from);
    if v.balance_of(from) >= shares && shares * v.total_assets <= i128::MAX {
        lemma_redeem_bounds(v, shares as int);
    }
    lemma_operations_move_caller_and_totals(v, from, shares);
}

/// The share price is tokens per share in six-decimal fixed point: exactly
/// 1.0 (1_000_000) without shares, else `total_assets * 1_000_000 /
/// total_shares` rounded down, refused for overflow exactly when that
/// product leaves the `i128` range.
pub proof fn lemma_share_price_formula(v: VaultView)
    requires
        v.valid(),
    ensures
        v.total_shares == 0 ==> v.share_price() == Ok::<i128, VaultError>(1_000_000),
        v.total_shares != 0 && v.total_assets * 1_000_000 <= i128::MAX ==> v.share_price() == Ok::<i128, VaultError>(
            ((v.total_assets * 1_000_000) / (v.total_shares as int)) as i128,
        ),
        v.total_shares != 0 && v.total_assets * 1_000_000 > i128::MAX ==> v.share_price() == Err::<i128, VaultError>(
            VaultError::ArithmeticOverflow,
        ),
        v.share_price() matches Ok(p) ==> p >= 0,
{
    lemma_sum_bounds(v.holders, share_measure());
    if v.total_shares != 0 {
        lemma_floor_div(v.total_assets * 1_000_000, v.total_shares as int);
    }
}

/// What `initialize` does: on a vault without an admin it sets the admin
/// and the token with nothing held; on one with an admin it is refused.
pub proof fn lemma_initialize_outcome(v: VaultView, admin: Address, token: Address, user: Address)
    requires
        v.valid(),
    ensures
        v.admin is Some <==> v.initialize(admin, token).1 is Err,
        v.initialize(admin, token).1 is Ok ==> {
            let w = v.initialize(admin, token).0;
            &&& w.admin == Some(admin)
            &&& w.underlying_token == Some(token)
            &&& w.total_shares == 0
            &&& w.total_assets == 0
            &&& w.balance_of(user) == 0
        },
{
    lemma_balance_bounded(v, user);
}

/// The vault's executable state, kept to `VaultView`'s invariant.
pub struct VaultContract {
    admin: Option<Address>,
    underlying_token: Option<Address>,
    total_shares: i128,
    total_assets: i128,
    shares: AddressMap<i128>,
}

impl View for VaultContract {
    type V = VaultView;

    closed spec fn view(&self) -> VaultView {
        VaultView {
            admin: self.admin,
            underlying_token: self.underlying_token,
            total_shares: self.total_shares,
            total_assets: self.total_assets,
            holders: self.shares@,
        }
    }
}

impl VaultContract {
    /// A vault as deployed, before `initialize`.
    pub fn new() -> (v: VaultContract)
        ensures
            v@ == VaultView::initial(),
            v@.valid(),
    {
        VaultContract {
            admin: None,
            underlying_token: None,
            total_shares: 0,
            total_assets: 0,
            shares: AddressMap::new(),
        }
    }

    /// A vault restored from stored parts; `None` when they break the
    /// accounting invariant.
    pub fn from_parts(
        admin: Option<Address>,
        underlying_token: Option<Address>,
        total_shares: i128,
        total_assets: i128,
        holders: Vec<(Address, i128)>,
    ) -> (r: Option<VaultContract>)
        ensures
            ({
                let w = VaultView { admin, underlying_token, total_shares, total_assets, holders: holders@ };
                &&& r is Some <==> w.valid()
                &&& r matches Some(v) ==> v@ == w
            }),
    {
        let ghost w = VaultView { admin, underlying_token, total_shares, total_assets, holders: holders@ };
        let ghost hs = holders@;
        let n = holders.len();
        let mut sum: i128 = 0;
        let mut i: usize = 0;
        while i < n
            invariant
                n == hs.len(),
                hs == holders@,
                i <= n,
                forall|j: int| 0 <= j < i ==> #[trigger] hs[j].1 >= 0,
                sum as int == sum_by(hs.take(i as int), share_measure()),
            decreases n - i,
        {
            proof {
                lemma_sum_take_next(hs, i as int, share_measure());
            }
            let b = holders[i].1;
            if b < 0 {
                return None;
            }
            match sum.checked_add(b) {
                Some(t) => {
                    sum = t;
                },
                None => {
                    proof {
                        if forall|j: int| 0 <= j < hs.len() ==> #[trigger] hs[j].1 >= 0 {
                            lemma_sum_prefix_le(hs, (i + 1) as int, share_measure());
                        }
                    }
                    return None;
                },
            }
            i = i + 1;
        }
        proof {
            assert(hs.take(n as int) =~= hs);
        }
        if sum != total_shares || total_assets < 0 || (total_shares == 0) != (total_assets == 0)
            || admin.is_some() != underlying_token.is_some() || (admin.is_none() && (n > 0
            || total_assets != 0)) {
            return None;
        }
        match AddressMap::from_vec(holders) {
            Some(m) => Some(
                VaultContract { admin, underlying_token, total_shares, total_assets, shares: m },
            ),
            None => None,
        }
    }

    /// The admin, once initialized.
    pub fn admin(&self) -> (r: Option<Address>)
        ensures
            r == self@.admin,
    {
        self.admin
    }

    /// The underlying token, once initialized.
    pub fn underlying_token(&self) -> (r: Option<Address>)
        ensures
            r == self@.underlying_token,
    {
        self.underlying_token
    }

    /// The share balances, in the order in which the holders first deposited.
    pub fn holders(&self) -> (r: Vec<(Address, i128)>)
        ensures
            r@ == self@.holders,
    {
        self.shares.to_vec()
    }

    /// Sets the admin and the underlying token; refused once the vault has an
    /// admin.
    pub fn initialize(&mut self, admin: Address, token: Address) -> (r: Result<(), VaultError>)
        requires
            old(self)@.valid(),
        ensures
            (final(self)@, r) == old(self)@.initialize(admin, token),
            final(self)@.valid(),
    {
        proof {
            lemma_initialize_keeps_valid(self@, admin, token);
        }
        if self.admin.is_some() {
            return Err(VaultError::AlreadyInitialized);
        }
        self.admin = Some(admin);
        self.underlying_token = Some(token);
        self.total_shares = 0;
        self.total_assets = 0;
        Ok(())
    }

    /// Records a deposit of `amount` underlying tokens by `from` and returns
    /// the shares minted to `from`.
    pub fn deposit(&mut self, from: Address, amount: i128) -> (r: Result<i128, VaultError>)
        requires
            old(self)@.valid(),
        ensures
            (final(self)@, r) == old(self)@.deposit(from, amount),
            final(self)@.valid(),
    {
        proof {
            lemma_deposit_keeps_valid(self@, from, amount);
            lemma_balance_bounded(self@, from);
        }
        if amount <= 0 {
            return Err(VaultError::NonPositiveAmount);
        }
        if self.admin.is_none() {
            return Err(VaultError::NotInitialized);
        }
        let minted: i128 = if self.total_assets == 0 {
            amount
        } else {
            match amount.checked_mul(self.total_shares) {
                Some(p) => floor_div(p, self.total_assets),
                None => {
                    return Err(VaultError::ArithmeticOverflow);
                },
            }
        };
        let new_total_shares = match self.total_shares.checked_add(minted) {
            Some(t) => t,
            None => {
                return Err(VaultError::ArithmeticOverflow);
            },
        };
        let new_total_assets = match self.total_assets.checked_add(amount) {
            Some(t) => t,
            None => {
                return Err(VaultError::ArithmeticOverflow);
            },
        };
        let balance = self.get_shares(from);
        self.shares.put(from, balance + minted);
        self.total_shares = new_total_shares;
        self.total_assets = new_total_assets;
        Ok(minted)
    }

    /// Burns `shares` of `from` and returns the underlying tokens they are
    /// worth.
    pub fn withdraw(&mut self, from: Address, shares: i128) -> (r: Result<i128, VaultError>)
        requires
            old(self)@.valid(),
        ensures
            (final(self)@, r) == old(self)@.withdraw(from, shares),
            final(self)@.valid(),
    {
        proof {
            lemma_withdraw_keeps_valid(self@, from, shares);
            lemma_balance_bounded(self@, from);
        }
        if shares <= 0 {
            return Err(VaultError::NonPositiveShares);
        }
        let balance = self.get_shares(from);
        if balance < shares {
            return Err(VaultError::InsufficientShares);
        }
        let out = match shares.checked_mul(self.total_assets) {
            Some(p) => floor_div(p, self.total_shares),
            None => {
                return Err(VaultError::ArithmeticOverflow);
            },
        };
        proof {
            lemma_redeem_bounds(self@, shares as int);
        }
        self.shares.put(from, balance - shares);
        self.total_shares = self.total_shares - shares;
        self.total_assets = self.total_assets - out;
        Ok(out)
    }

    /// The shares that `user` holds; 0 for one who never deposited.
    pub fn balance_of(&self, user: Address) -> (r: i128)
        requires
            self@.valid(),
        ensures
            r == self@.balance_of(user),
    {
        self.get_shares(user)
    }

    /// The share balance recorded for `user`, 0 when there is none.
    fn get_shares(&self, user: Address) -> (r: i128)
        requires
            self@.valid(),
        ensures
            r == self@.balance_of(user),
    {
        match self.shares.get(user) {
            Some(b) => b,
            None => 0,
        }
    }

    /// The underlying tokens that the vault holds.
    pub fn total_assets(&self) -> (r: i128)
        ensures
            r == self@.total_assets,
    {
        self.total_assets
    }

    /// The shares outstanding.
    pub fn total_shares(&self) -> (r: i128)
        ensures
            r == self@.total_shares,
    {
        self.total_shares
    }

    /// Tokens per share in six-decimal fixed point (`SHARE_PRICE_SCALE` is
    /// 1.0); 1.0 while no shares are outstanding.
    pub fn share_price(&self) -> (r: Result<i128, VaultError>)
        requires
            self@.valid(),
        ensures
            r == self@.share_price(),
    {
        proof {
            lemma_sum_bounds(self@.holders, share_measure());
        }
        if self.total_shares == 0 {
            return Ok(SHARE_PRICE_SCALE);
        }
        match self.total_assets.checked_mul(SHARE_PRICE_SCALE) {
            Some(p) => Ok(floor_div(p, self.total_shares)),
            None => Err(VaultError::ArithmeticOverflow),
        }
    }
}

} // verus!
