//! What the values that the exchange returns mean: balances, positions, orders,
//! fills and the rules for quantities.

use serde_json::Value;
use vstd::prelude::*;

use crate::account::{AccountInfo, AssetBalance, OrderResult, PositionInfo, UserTrade};
use crate::arith;
use crate::arith::{Arithmetic, Model, Style};
use crate::execution;
use crate::execution::{BinanceTestnetClient, LogView, Reply, TRADE_PAGE_LIMIT};
use crate::json;
use crate::json::{
    extract_bool, extract_f64, extract_string, extract_u32, extract_u64, get_member, parse_json,
    shape_of, Json, Shape,
};
use crate::signing;
use crate::text;
use crate::text::{chars_of, decimal_text, same_text, text_of};

verus! {

// ---------------------------------------------------------------------------
// Account
// ---------------------------------------------------------------------------

/// What the balance of an asset holds.
#[verifier::ext_equal]
pub struct AssetView<F> {
    pub asset: Seq<char>,
    pub wallet_balance: F,
    pub unrealized_profit: F,
}

/// What the balances of an account hold.
#[verifier::ext_equal]
pub struct AccountView<F> {
    pub total_wallet_balance: F,
    pub total_margin_balance: F,
    pub available_balance: F,
    pub unrealized_pnl: F,
    pub assets: Seq<AssetView<F>>,
}

impl<F> View for AssetBalance<F> {
    type V = AssetView<F>;

    open spec fn view(&self) -> AssetView<F> {
        AssetView {
            asset: self.asset@,
            wallet_balance: self.wallet_balance,
            unrealized_profit: self.unrealized_profit,
        }
    }
}

impl<F> View for AccountInfo<F> {
    type V = AccountView<F>;

    open spec fn view(&self) -> AccountView<F> {
        AccountView {
            total_wallet_balance: self.total_wallet_balance,
            total_margin_balance: self.total_margin_balance,
            available_balance: self.available_balance,
            unrealized_pnl: self.unrealized_pnl,
            assets: Seq::new(self.assets@.len(), |i: int| self.assets@[i]@),
        }
    }
}

/// The balance of an asset that a value gives, none where a field is missing or
/// cannot be read.
pub open spec fn asset_of<F>(m: Model<F>, item: Json) -> Option<AssetView<F>> {
    match (
        json::string_field(item, "asset"@),
        json::number_field(m, item, "walletBalance"@),
        json::number_field(m, item, "unrealizedProfit"@),
    ) {
        (Ok(asset), Ok(wallet_balance), Ok(unrealized_profit)) => Some(
            AssetView { asset, wallet_balance, unrealized_profit },
        ),
        _ => None,
    }
}

/// The balances of assets that a list gives, unreadable ones left out.
pub open spec fn assets_of<F>(m: Model<F>, items: Seq<Json>) -> Seq<AssetView<F>>
    decreases items.len(),
{
    if items.len() == 0 {
        Seq::empty()
    } else {
        let before = assets_of(m, items.drop_last());
        match asset_of(m, items.last()) {
            Some(asset) => before.push(asset),
            None => before,
        }
    }
}

/// The balances of an account that a value gives, or what is wrong with it.
pub open spec fn account_of<F>(m: Model<F>, item: Json) -> Result<AccountView<F>, Seq<char>> {
    match json::number_field(m, item, "totalWalletBalance"@) {
        Err(e) => Err(e),
        Ok(total_wallet_balance) => match json::number_field(m, item, "totalMarginBalance"@) {
            Err(e) => Err(e),
            Ok(total_margin_balance) => match json::number_field(m, item, "availableBalance"@) {
                Err(e) => Err(e),
                Ok(available_balance) => match json::number_field(
                    m,
                    item,
                    "totalUnrealizedProfit"@,
                ) {
                    Err(e) => Err(e),
                    Ok(unrealized_pnl) => Ok(
                        AccountView {
                            total_wallet_balance,
                            total_margin_balance,
                            available_balance,
                            unrealized_pnl,
                            assets: match json::member_of(item, "assets"@) {
                                Some(Json::List(items)) => assets_of(m, items),
                                _ => Seq::empty(),
                            },
                        },
                    ),
                },
            },
        },
    }
}

/// An outcome by what it holds.
pub open spec fn account_outcome<F>(outcome: Result<AccountInfo<F>, String>) -> Result<
    AccountView<F>,
    Seq<char>,
> {
    match outcome {
        Ok(account) => Ok(account@),
        Err(message) => Err(message@),
    }
}

/// The balance of an asset that a value gives.
fn read_asset<F: Copy, A: Arithmetic<F>>(a: &A, item: &Value) -> (asset: Option<AssetBalance<F>>)
    ensures
        forall|m: Model<F>| #[trigger]
            arith::describes(m, *a) ==> (match asset {
                Some(balance) => Some(balance@),
                None => None,
            }) == asset_of(m, json::json_of(*item)),
{
    let asset: String = match extract_string(item, "asset") {
        Ok(found) => found,
        Err(_) => {
            return None;
        },
    };
    let wallet_balance: F = match extract_f64(a, item, "walletBalance") {
        Ok(found) => found,
        Err(_) => {
            return None;
        },
    };
    let unrealized_profit: F = match extract_f64(a, item, "unrealizedProfit") {
        Ok(found) => found,
        Err(_) => {
            return None;
        },
    };
    Some(AssetBalance { asset, wallet_balance, unrealized_profit })
}

/// What the balances of a list hold.
pub open spec fn asset_views<F>(assets: Seq<AssetBalance<F>>) -> Seq<AssetView<F>> {
    Seq::new(assets.len(), |i: int| assets[i]@)
}

/// The balances of assets that a list gives, unreadable ones left out.
fn read_assets<F: Copy, A: Arithmetic<F>>(a: &A, items: &Vec<Value>) -> (assets: Vec<
    AssetBalance<F>,
>)
    ensures
        forall|m: Model<F>| #[trigger]
            arith::describes(m, *a) ==> asset_views(assets@) == assets_of(m, json::jsons(items@)),
{
    let ghost all = json::jsons(items@);
    let mut assets: Vec<AssetBalance<F>> = Vec::new();
    let mut i: usize = 0;
    proof {
        assert forall|m: Model<F>| #[trigger] arith::describes(m, *a) implies asset_views(assets@)
            == assets_of(m, all.take(0)) by {
            assert(asset_views(assets@) =~= assets_of(m, all.take(0)));
        }
    }
    while i < items.len()
        invariant
            i <= items.len(),
            all == json::jsons(items@),
            forall|m: Model<F>| #[trigger]
                arith::describes(m, *a) ==> asset_views(assets@) == assets_of(
                    m,
                    all.take(i as int),
                ),
        decreases items.len() - i,
    {
        proof {
            assert(all.take(i as int + 1).drop_last() =~= all.take(i as int));
        }
        let ghost before = assets@;
        if let Some(asset) = read_asset(a, &items[i]) {
            assets.push(asset);
            proof {
                assert(asset_views(assets@) =~= asset_views(before).push(asset@));
            }
        }
        i += 1;
    }
    proof {
        assert(all.take(all.len() as int) =~= all);
    }
    assets
}

// ---------------------------------------------------------------------------
// Position
// ---------------------------------------------------------------------------

/// What a position of the account holds.
#[verifier::ext_equal]
pub struct HoldingView<F> {
    pub symbol: Seq<char>,
    pub position_amt: F,
    pub entry_price: F,
    pub unrealized_pnl: F,
    pub leverage: u32,
    pub margin_type: Seq<char>,
}

impl<F> View for PositionInfo<F> {
    type V = HoldingView<F>;

    open spec fn view(&self) -> HoldingView<F> {
        HoldingView {
            symbol: self.symbol@,
            position_amt: self.position_amt,
            entry_price: self.entry_price,
            unrealized_pnl: self.unrealized_pnl,
            leverage: self.leverage,
            margin_type: self.margin_type@,
        }
    }
}

/// The position that an entry for the symbol gives: none where its amount is
/// zero, or what is wrong with the entry.
pub open spec fn holding_of<F>(m: Model<F>, symbol: Seq<char>, item: Json) -> Result<
    Option<HoldingView<F>>,
    Seq<char>,
> {
    match json::number_field(m, item, "positionAmt"@) {
        Err(e) => Err(e),
        Ok(position_amt) => if m.equal(position_amt, m.zero()) {
            Ok(None)
        } else {
            match json::number_field(m, item, "entryPrice"@) {
                Err(e) => Err(e),
                Ok(entry_price) => match json::number_field(m, item, "unRealizedProfit"@) {
                    Err(e) => Err(e),
                    Ok(unrealized_pnl) => match json::u32_field(item, "leverage"@) {
                        Err(e) => Err(e),
                        Ok(leverage) => match json::string_field(item, "marginType"@) {
                            Err(e) => Err(e),
                            Ok(margin_type) => Ok(
                                Some(
                                    HoldingView {
                                        symbol,
                                        position_amt,
                                        entry_price,
                                        unrealized_pnl,
                                        leverage,
                                        margin_type,
                                    },
                                ),
                            ),
                        },
                    },
                },
            }
        },
    }
}

/// The position in a symbol that a list gives: that of the first entry with the
/// symbol, none where there is no such entry.
pub open spec fn find_holding<F>(m: Model<F>, symbol: Seq<char>, items: Seq<Json>) -> Result<
    Option<HoldingView<F>>,
    Seq<char>,
>
    decreases items.len(),
{
    if items.len() == 0 {
        Ok(None)
    } else if json::string_field(items[0], "symbol"@) == Ok::<Seq<char>, Seq<char>>(symbol) {
        holding_of(m, symbol, items[0])
    } else {
        find_holding(m, symbol, items.skip(1))
    }
}

/// An outcome by what it holds.
pub open spec fn holding_outcome<F>(outcome: Result<Option<PositionInfo<F>>, String>) -> Result<
    Option<HoldingView<F>>,
    Seq<char>,
> {
    match outcome {
        Ok(Some(info)) => Ok(Some(info@)),
        Ok(None) => Ok(None),
        Err(message) => Err(message@),
    }
}

/// The position that an entry for the symbol gives.
fn read_holding<F: Copy, A: Arithmetic<F>>(a: &A, symbol: &str, item: &Value) -> (outcome: Result<
    Option<PositionInfo<F>>,
    String,
>)
    ensures
        forall|m: Model<F>| #[trigger]
            arith::describes(m, *a) ==> holding_outcome(outcome) == holding_of(
                m,
                symbol@,
                json::json_of(*item),
            ),
{
    let position_amt: F = match extract_f64(a, item, "positionAmt") {
        Ok(found) => found,
        Err(e) => {
            return Err(e);
        },
    };
    if arith::equal(a, position_amt, arith::zero(a)) {
        return Ok(None);
    }
    let entry_price: F = match extract_f64(a, item, "entryPrice") {
        Ok(found) => found,
        Err(e) => {
            return Err(e);
        },
    };
    let unrealized_pnl: F = match extract_f64(a, item, "unRealizedProfit") {
        Ok(found) => found,
        Err(e) => {
            return Err(e);
        },
    };
    let leverage: u32 = match extract_u32(item, "leverage") {
        Ok(found) => found,
        Err(e) => {
            return Err(e);
        },
    };
    let margin_type: String = match extract_string(item, "marginType") {
        Ok(found) => found,
        Err(e) => {
            return Err(e);
        },
    };
    Ok(
        Some(
            PositionInfo {
                symbol: symbol.to_string(),
                position_amt,
                entry_price,
                unrealized_pnl,
                leverage,
                margin_type,
            },
        ),
    )
}

// ---------------------------------------------------------------------------
// Orders
// ---------------------------------------------------------------------------

/// What the result of an order holds.
#[verifier::ext_equal]
pub struct OrderView<F> {
    pub order_id: u64,
    pub symbol: Seq<char>,
    pub side: Seq<char>,
    pub price: F,
    pub orig_qty: F,
    pub executed_qty: F,
    pub status: Seq<char>,
    pub order_type: Seq<char>,
}

impl<F> View for OrderResult<F> {
    type V = OrderView<F>;

    open spec fn view(&self) -> OrderView<F> {
        OrderView {
            order_id: self.order_id,
            symbol: self.symbol@,
            side: self.side@,
            price: self.price,
            orig_qty: self.orig_qty,
            executed_qty: self.executed_qty,
            status: self.status@,
            order_type: self.order_type@,
        }
    }
}

/// The result of an order that a value gives, or what is wrong with it.
pub open spec fn order_of<F>(m: Model<F>, item: Json) -> Result<OrderView<F>, Seq<char>> {
    match json::u64_field(item, "orderId"@) {
        Err(e) => Err(e),
        Ok(order_id) => match json::string_field(item, "symbol"@) {
            Err(e) => Err(e),
            Ok(symbol) => match json::string_field(item, "side"@) {
                Err(e) => Err(e),
                Ok(side) => match json::number_field(m, item, "price"@) {
                    Err(e) => Err(e),
                    Ok(price) => match json::number_field(m, item, "origQty"@) {
                        Err(e) => Err(e),
                        Ok(orig_qty) => match json::number_field(m, item, "executedQty"@) {
                            Err(e) => Err(e),
                            Ok(executed_qty) => match json::string_field(item, "status"@) {
                                Err(e) => Err(e),
                                Ok(status) => match json::string_field(item, "type"@) {
                                    Err(e) => Err(e),
                                    Ok(order_type) => Ok(
                                        OrderView {
                                            order_id,
                                            symbol,
                                            side,
                                            price,
                                            orig_qty,
                                            executed_qty,
                                            status,
                                            order_type,
                                        },
                                    ),
                                },
                            },
                        },
                    },
                },
            },
        },
    }
}

/// An outcome by what it holds.
pub open spec fn order_outcome<F>(outcome: Result<OrderResult<F>, String>) -> Result<
    OrderView<F>,
    Seq<char>,
> {
    match outcome {
        Ok(order) => Ok(order@),
        Err(message) => Err(message@),
    }
}

// ---------------------------------------------------------------------------
// Fills
// ---------------------------------------------------------------------------

/// What a fill holds.
#[verifier::ext_equal]
pub struct FillView<F> {
    pub id: u64,
    pub symbol: Seq<char>,
    pub side: Seq<char>,
    pub price: F,
    pub qty: F,
    pub realized_pnl: F,
    pub commission: F,
    pub commission_asset: Seq<char>,
    pub time: u64,
    pub position_side: Seq<char>,
    pub buyer: bool,
    pub maker: bool,
}

impl<F> View for UserTrade<F> {
    type V = FillView<F>;

    open spec fn view(&self) -> FillView<F> {
        FillView {
            id: self.id,
            symbol: self.symbol@,
            side: self.side@,
            price: self.price,
            qty: self.qty,
            realized_pnl: self.realized_pnl,
            commission: self.commission,
            commission_asset: self.commission_asset@,
            time: self.time,
            position_side: self.position_side@,
            buyer: self.buyer,
            maker: self.maker,
        }
    }
}

/// The fill that a value gives, or what is wrong with it.
pub open spec fn fill_of<F>(m: Model<F>, item: Json) -> Result<FillView<F>, Seq<char>> {
    match json::u64_field(item, "id"@) {
        Err(e) => Err(e),
        Ok(id) => match json::string_field(item, "symbol"@) {
            Err(e) => Err(e),
            Ok(symbol) => match json::string_field(item, "side"@) {
                Err(e) => Err(e),
                Ok(side) => match json::number_field(m, item, "price"@) {
                    Err(e) => Err(e),
                    Ok(price) => match json::number_field(m, item, "qty"@) {
                        Err(e) => Err(e),
                        Ok(qty) => match json::number_field(m, item, "realizedPnl"@) {
                            Err(e) => Err(e),
                            Ok(realized_pnl) => match json::number_field(m, item, "commission"@) {
                                Err(e) => Err(e),
                                Ok(commission) => match json::string_field(
                                    item,
                                    "commissionAsset"@,
                                ) {
                                    Err(e) => Err(e),
                                    Ok(commission_asset) => match json::u64_field(item, "time"@) {
                                        Err(e) => Err(e),
                                        Ok(time) => match json::string_field(
                                            item,
                                            "positionSide"@,
                                        ) {
                                            Err(e) => Err(e),
                                            Ok(position_side) => match json::bool_field(
                                                item,
                                                "buyer"@,
                                            ) {
                                                Err(e) => Err(e),
                                                Ok(buyer) => match json::bool_field(
                                                    item,
                                                    "maker"@,
                                                ) {
                                                    Err(e) => Err(e),
                                                    Ok(maker) => Ok(
                                                        FillView {
                                                            id,
                                                            symbol,
                                                            side,
                                                            price,
                                                            qty,
                                                            realized_pnl,
                                                            commission,
                                                            commission_asset,
                                                            time,
                                                            position_side,
                                                            buyer,
                                                            maker,
                                                        },
                                                    ),
                                                },
                                            },
                                        },
                                    },
                                },
                            },
                        },
                    },
                },
            },
        },
    }
}

/// The fills that a list gives, or what is wrong with the first bad one.
pub open spec fn fills_of<F>(m: Model<F>, items: Seq<Json>) -> Result<Seq<FillView<F>>, Seq<char>>
    decreases items.len(),
{
    if items.len() == 0 {
        Ok(Seq::empty())
    } else {
        match fills_of(m, items.drop_last()) {
            Err(e) => Err(e),
            Ok(before) => match fill_of(m, items.last()) {
                Err(e) => Err(e),
                Ok(fill) => Ok(before.push(fill)),
            },
        }
    }
}

/// What the fills of a list hold.
pub open spec fn fill_views<F>(fills: Seq<UserTrade<F>>) -> Seq<FillView<F>> {
    Seq::new(fills.len(), |i: int| fills[i]@)
}

/// An outcome by what it holds.
pub open spec fn fill_outcome<F>(outcome: Result<UserTrade<F>, String>) -> Result<
    FillView<F>,
    Seq<char>,
> {
    match outcome {
        Ok(fill) => Ok(fill@),
        Err(message) => Err(message@),
    }
}

/// An outcome by what it holds.
pub open spec fn fills_outcome<F>(outcome: Result<Vec<UserTrade<F>>, String>) -> Result<
    Seq<FillView<F>>,
    Seq<char>,
> {
    match outcome {
        Ok(fills) => Ok(fill_views(fills@)),
        Err(message) => Err(message@),
    }
}

/// The fill that a value gives.
fn read_fill<F: Copy, A: Arithmetic<F>>(a: &A, item: &Value) -> (outcome: Result<
    UserTrade<F>,
    String,
>)
    ensures
        forall|m: Model<F>| #[trigger]
            arith::describes(m, *a) ==> fill_outcome(outcome) == fill_of(m, json::json_of(*item)),
{
    let id: u64 = match extract_u64(item, "id") {
        Ok(found) => found,
        Err(e) => {
            return Err(e);
        },
    };
    let symbol: String = match extract_string(item, "symbol") {
        Ok(found) => found,
        Err(e) => {
            return Err(e);
        },
    };
    let side: String = match extract_string(item, "side") {
        Ok(found) => found,
        Err(e) => {
            return Err(e);
        },
    };
    let price: F = match extract_f64(a, item, "price") {
        Ok(found) => found,
        Err(e) => {
            return Err(e);
        },
    };
    let qty: F = match extract_f64(a, item, "qty") {
        Ok(found) => found,
        Err(e) => {
            return Err(e);
        },
    };
    let realized_pnl: F = match extract_f64(a, item, "realizedPnl") {
        Ok(found) => found,
        Err(e) => {
            return Err(e);
        },
    };
    let commission: F = match extract_f64(a, item, "commission") {
        Ok(found) => found,
        Err(e) => {
            return Err(e);
        },
    };
    let commission_asset: String = match extract_string(item, "commissionAsset") {
        Ok(found) => found,
        Err(e) => {
            return Err(e);
        },
    };
    let time: u64 = match extract_u64(item, "time") {
        Ok(found) => found,
        Err(e) => {
            return Err(e);
        },
    };
    let position_side: String = match extract_string(item, "positionSide") {
        Ok(found) => found,
        Err(e) => {
            return Err(e);
        },
    };
    let buyer: bool = match extract_bool(item, "buyer") {
        Ok(found) => found,
        Err(e) => {
            return Err(e);
        },
    };
    let maker: bool = match extract_bool(item, "maker") {
        Ok(found) => found,
        Err(e) => {
            return Err(e);
        },
    };
    Ok(
        UserTrade {
            id,
            symbol,
            side,
            price,
            qty,
            realized_pnl,
            commission,
            commission_asset,
            time,
            position_side,
            buyer,
            maker,
        },
    )
}

proof fn lemma_fills_stop<F>(m: Model<F>, items: Seq<Json>, n: int, e: Seq<char>)
    requires
        0 <= n <= items.len(),
        fills_of(m, items.take(n)) == Err::<Seq<FillView<F>>, Seq<char>>(e),
    ensures
        fills_of(m, items) == Err::<Seq<FillView<F>>, Seq<char>>(e),
    decreases items.len() - n,
{
    if n == items.len() {
        assert(items.take(n) =~= items);
    } else {
        assert(items.take(n + 1).drop_last() =~= items.take(n));
        lemma_fills_stop(m, items, n + 1, e);
    }
}

/// The fills that a list gives.
fn read_fills<F: Copy, A: Arithmetic<F>>(a: &A, items: &Vec<Value>) -> (outcome: Result<
    Vec<UserTrade<F>>,
    String,
>)
    ensures
        outcome matches Ok(fills) ==> fills.len() == items.len(),
        forall|m: Model<F>| #[trigger]
            arith::describes(m, *a) ==> fills_outcome(outcome) == fills_of(
                m,
                json::jsons(items@),
            ),
{
    let ghost all = json::jsons(items@);
    let mut fills: Vec<UserTrade<F>> = Vec::new();
    let mut i: usize = 0;
    proof {
        assert(fill_views(fills@) =~= Seq::<FillView<F>>::empty());
    }
    while i < items.len()
        invariant
            i <= items.len(),
            fills.len() == i,
            all == json::jsons(items@),
            forall|m: Model<F>| #[trigger]
                arith::describes(m, *a) ==> fills_of(m, all.take(i as int)) == Ok::<
                    Seq<FillView<F>>,
                    Seq<char>,
                >(fill_views(fills@)),
        decreases items.len() - i,
    {
        proof {
            assert(all.take(i as int + 1).drop_last() =~= all.take(i as int));
        }
        let ghost before = fills@;
        match read_fill(a, &items[i]) {
            Ok(fill) => {
                fills.push(fill);
                proof {
                    assert(fill_views(fills@) =~= fill_views(before).push(fill@));
                }
            },
            Err(e) => {
                proof {
                    assert forall|m: Model<F>| #[trigger] arith::describes(m, *a) implies fills_of(
                        m,
                        all,
                    ) == Err::<Seq<FillView<F>>, Seq<char>>(e@) by {
                        lemma_fills_stop(m, all, i as int + 1, e@);
                    }
                }
                return Err(e);
            },
        }
        i += 1;
    }
    proof {
        assert(all.take(all.len() as int) =~= all);
    }
    Ok(fills)
}

// ---------------------------------------------------------------------------
// Quantities
// ---------------------------------------------------------------------------

/// How many digits stand behind the point of a number's text, zeros at its end
/// not counted.
pub open spec fn places_of(digits: Seq<char>) -> nat {
    match first_point(digits) {
        Some(at) => without_zeros(digits.skip(at + 1)).len(),
        None => 0,
    }
}

/// Where the first point of a text stands.
pub open spec fn first_point(s: Seq<char>) -> Option<int>
    decreases s.len(),
{
    if s.len() == 0 {
        None
    } else if s[0] == '.' {
        Some(0)
    } else {
        match first_point(s.skip(1)) {
            Some(at) => Some(at + 1),
            None => None,
        }
    }
}

/// The text without the zeros at its end.
pub open spec fn without_zeros(s: Seq<char>) -> Seq<char>
    decreases s.len(),
{
    if s.len() > 0 && s.last() == '0' {
        without_zeros(s.drop_last())
    } else {
        s
    }
}

/// The text without the points at its end.
pub open spec fn without_points(s: Seq<char>) -> Seq<char>
    decreases s.len(),
{
    if s.len() > 0 && s.last() == '.' {
        without_points(s.drop_last())
    } else {
        s
    }
}

/// A fixed-point text without the zeros at its end; where nothing is left behind
/// the point, the point stays.
pub open spec fn shortened(s: Seq<char>) -> Seq<char> {
    let trimmed = without_points(without_zeros(s));
    if first_point(trimmed) is Some {
        trimmed
    } else {
        trimmed + "."@
    }
}

/// A quantity cut to whole steps. What falls short of a step by less than a
/// millionth of it counts as having reached it.
pub open spec fn whole_steps<F>(m: Model<F>, quantity: F, step: F) -> F {
    m.times(m.floor(m.plus(m.over(quantity, step), m.ratio(1, 1_000_000))), step)
}

/// A quantity as it stands in an order.
pub open spec fn quantity_text<F>(m: Model<F>, quantity: F, step: F) -> Seq<char> {
    if m.less_eq(step, m.zero()) {
        (m.text)(quantity, Style::Shortest)
    } else {
        let cut = whole_steps(m, quantity, step);
        let places = if m.less_eq(m.ratio(1, 1), step) {
            0
        } else {
            places_of((m.text)(step, Style::Shortest))
        };
        if places == 0 {
            (m.text)(cut, Style::Fixed(0))
        } else {
            shortened((m.text)(cut, Style::Fixed(places as usize)))
        }
    }
}

/// The text without the zeros at its end.
fn drop_zeros(chars: &mut Vec<char>)
    ensures
        final(chars)@ == without_zeros(old(chars)@),
{
    let ghost start = chars@;
    while chars.len() > 0 && chars[chars.len() - 1] == '0'
        invariant
            without_zeros(chars@) == without_zeros(start),
        decreases chars.len(),
    {
        let ghost before = chars@;
        let _zero: Option<char> = chars.pop();
        proof {
            assert(chars@ =~= before.drop_last());
        }
    }
}

/// The text without the points at its end.
fn drop_points(chars: &mut Vec<char>)
    ensures
        final(chars)@ == without_points(old(chars)@),
{
    let ghost start = chars@;
    while chars.len() > 0 && chars[chars.len() - 1] == '.'
        invariant
            without_points(chars@) == without_points(start),
        decreases chars.len(),
    {
        let ghost before = chars@;
        let _point: Option<char> = chars.pop();
        proof {
            assert(chars@ =~= before.drop_last());
        }
    }
}

/// Where the first point of a text stands.
fn find_point(chars: &Vec<char>) -> (at: Option<usize>)
    ensures
        match at {
            Some(i) => first_point(chars@) == Some(i as int) && i < chars.len(),
            None => first_point(chars@) is None,
        },
{
    let mut i: usize = 0;
    proof {
        assert(chars@.skip(0) =~= chars@);
    }
    while i < chars.len()
        invariant
            i <= chars.len(),
            match first_point(chars@.skip(i as int)) {
                Some(at) => first_point(chars@) == Some(at + i),
                None => first_point(chars@) is None,
            },
        decreases chars.len() - i,
    {
        proof {
            assert(chars@.skip(i as int)[0] == chars@[i as int]);
            assert(chars@.skip(i as int).skip(1) =~= chars@.skip(i as int + 1));
        }
        if chars[i] == '.' {
            return Some(i);
        }
        i += 1;
    }
    None
}

/// How many digits stand behind the point, zeros at the end not counted.
fn count_places(digits: &str) -> (places: usize)
    ensures
        places == places_of(digits@),
{
    let chars: Vec<char> = chars_of(digits);
    match find_point(&chars) {
        None => 0,
        Some(at) => {
            let mut behind: Vec<char> = Vec::new();
            let mut i: usize = at + 1;
            while i < chars.len()
                invariant
                    at + 1 <= i <= chars.len(),
                    behind@ == chars@.subrange(at + 1, i as int),
                decreases chars.len() - i,
            {
                behind.push(chars[i]);
                proof {
                    assert(chars@.subrange(at + 1, i as int).push(chars@[i as int])
                        =~= chars@.subrange(at + 1, i as int + 1));
                }
                i += 1;
            }
            proof {
                assert(behind@ =~= chars@.skip(at + 1));
            }
            drop_zeros(&mut behind);
            behind.len()
        },
    }
}

/// A fixed-point text without the zeros at its end.
fn shorten(fixed: &str) -> (short: String)
    ensures
        short@ == shortened(fixed@),
{
    let mut chars: Vec<char> = chars_of(fixed);
    drop_zeros(&mut chars);
    drop_points(&mut chars);
    let mut short: String = text_of(&chars);
    if find_point(&chars).is_none() {
        short.append(".");
    }
    short
}

impl<F: Copy> BinanceTestnetClient<F> {
    /// A quantity as it stands in an order: cut to the step of market orders.
    pub fn format_quantity<A: Arithmetic<F>>(&self, a: &A, quantity: F) -> (written: String)
        ensures
            forall|m: Model<F>| #[trigger]
                arith::describes(m, *a) ==> written@ == quantity_text(
                    m,
                    quantity,
                    self.market_step_size,
                ),
    {
        let step: F = self.market_step_size;
        if arith::less_eq(a, step, arith::zero(a)) {
            return arith::text(a, quantity, Style::Shortest);
        }
        let places: usize = if arith::less_eq(a, arith::ratio(a, 1, 1), step) {
            0
        } else {
            count_places(&arith::text(a, step, Style::Shortest))
        };
        let steps: F = arith::over(a, quantity, step);
        let nudged: F = arith::plus(a, steps, arith::ratio(a, 1, 1_000_000));
        let whole: F = arith::floor(a, nudged);
        let cut: F = arith::times(a, whole, step);
        if places == 0 {
            arith::text(a, cut, Style::Fixed(0))
        } else {
            shorten(&arith::text(a, cut, Style::Fixed(places)))
        }
    }

    /// The step of quantities.
    pub fn step_size(&self) -> (step: F)
        ensures
            step == self.step_size,
    {
        self.step_size
    }

    // -----------------------------------------------------------------------
    // Queries
    // -----------------------------------------------------------------------

    /// The balances that the outcome of an account query gives.
    pub fn get_account<A: Arithmetic<F>>(a: &A, response: &Result<Value, String>) -> (outcome:
        Result<AccountInfo<F>, String>)
        ensures
            *response matches Err(e) ==> (outcome matches Err(message) && message@ == e@),
            forall|m: Model<F>| #[trigger]
                arith::describes(m, *a) ==> account_outcome(outcome) == (match *response {
                    Ok(value) => account_of(m, json::json_of(value)),
                    Err(e) => Err(e@),
                }),
    {
        let value: &Value = match response {
            Ok(value) => value,
            Err(e) => {
                return Err(e.clone());
            },
        };
        let total_wallet_balance: F = match extract_f64(a, value, "totalWalletBalance") {
            Ok(found) => found,
            Err(e) => {
                return Err(e);
            },
        };
        let total_margin_balance: F = match extract_f64(a, value, "totalMarginBalance") {
            Ok(found) => found,
            Err(e) => {
                return Err(e);
            },
        };
        let available_balance: F = match extract_f64(a, value, "availableBalance") {
            Ok(found) => found,
            Err(e) => {
                return Err(e);
            },
        };
        let unrealized_pnl: F = match extract_f64(a, value, "totalUnrealizedProfit") {
            Ok(found) => found,
            Err(e) => {
                return Err(e);
            },
        };
        let assets: Vec<AssetBalance<F>> = match get_member(value, "assets") {
            Some(member) => match shape_of(member) {
                Shape::List(items) => read_assets(a, items),
                _ => Vec::new(),
            },
            None => Vec::new(),
        };
        let account = AccountInfo {
            total_wallet_balance,
            total_margin_balance,
            available_balance,
            unrealized_pnl,
            assets,
        };
        proof {
            assert(account@.assets =~= asset_views(account.assets@));
            assert(account.assets@.len() == 0 ==> asset_views(account.assets@) =~= Seq::<
                AssetView<F>,
            >::empty());
        }
        Ok(account)
    }

    /// What is free for trading, by the outcome of an account query.
    pub fn get_balance(account: &Result<AccountInfo<F>, String>) -> (outcome: Result<F, String>)
        ensures
            json::outcome_view(outcome) == (match *account {
                Ok(info) => Ok(info.available_balance),
                Err(e) => Err(e@),
            }),
    {
        match account {
            Ok(info) => Ok(info.available_balance),
            Err(e) => Err(e.clone()),
        }
    }

    /// The position in a symbol that the outcome of a position query gives; none
    /// where none is held.
    pub fn get_position<A: Arithmetic<F>>(
        a: &A,
        symbol: &str,
        response: &Result<Value, String>,
    ) -> (outcome: Result<Option<PositionInfo<F>>, String>)
        ensures
            *response matches Err(e) ==> (outcome matches Err(message) && message@ == e@),
            forall|m: Model<F>| #[trigger]
                arith::describes(m, *a) ==> holding_outcome(outcome) == (match *response {
                    Ok(value) => match json::json_of(value) {
                        Json::List(items) => find_holding(m, symbol@, items),
                        _ => Err("Expected array response from positionRisk"@),
                    },
                    Err(e) => Err(e@),
                }),
    {
        let value: &Value = match response {
            Ok(value) => value,
            Err(e) => {
                return Err(e.clone());
            },
        };
        let items: &Vec<Value> = match shape_of(value) {
            Shape::List(items) => items,
            _ => {
                return Err("Expected array response from positionRisk".to_string());
            },
        };
        let ghost all = json::jsons(items@);
        let mut i: usize = 0;
        proof {
            assert(all.skip(0) =~= all);
        }
        while i < items.len()
            invariant
                i <= items.len(),
                all == json::jsons(items@),
                json::json_of(*value) == Json::List(all),
                *response == Ok::<Value, String>(*value),
                forall|m: Model<F>| #[trigger]
                    arith::describes(m, *a) ==> find_holding(m, symbol@, all) == find_holding(
                        m,
                        symbol@,
                        all.skip(i as int),
                    ),
            decreases items.len() - i,
        {
            proof {
                assert(all.skip(i as int)[0] == json::json_of(items@[i as int]));
                assert(all.skip(i as int).skip(1) =~= all.skip(i as int + 1));
            }
            if let Ok(found) = extract_string(&items[i], "symbol") {
                if same_text(&found, symbol) {
                    return read_holding(a, symbol, &items[i]);
                }
            }
            i += 1;
        }
        Ok(None)
    }

    /// The parameters of a market order, or why its quantity is refused.
    pub fn market_order_params<A: Arithmetic<F>>(
        &self,
        a: &A,
        symbol: &str,
        side: &str,
        quantity: F,
    ) -> (outcome: Result<Vec<(String, String)>, String>)
        ensures
            forall|m: Model<F>| #[trigger]
                arith::describes(m, *a) ==> if m.less(quantity, self.min_qty) {
                    outcome matches Err(message) && message@ == "Quantity "@ + (m.text)(
                        quantity,
                        Style::Shortest,
                    ) + " is below minimum "@ + (m.text)(self.min_qty, Style::Shortest) + " for "@
                        + symbol@
                } else {
                    outcome matches Ok(params) && signing::params_view(params@) == seq![
                        signing::ParamView { name: "symbol"@, value: symbol@ },
                        signing::ParamView { name: "side"@, value: text::uppercase(side@) },
                        signing::ParamView { name: "type"@, value: "MARKET"@ },
                        signing::ParamView {
                            name: "quantity"@,
                            value: quantity_text(m, quantity, self.market_step_size),
                        },
                    ]
                },
    {
        if arith::less(a, quantity, self.min_qty) {
            let mut message: String = "Quantity ".to_string();
            message.append(&arith::text(a, quantity, Style::Shortest));
            message.append(" is below minimum ");
            message.append(&arith::text(a, self.min_qty, Style::Shortest));
            message.append(" for ");
            message.append(symbol);
            return Err(message);
        }
        let written: String = self.format_quantity(a, quantity);
        let upper: String = text::to_upper(side);
        let mut params: Vec<(String, String)> = Vec::new();
        params.push(("symbol".to_string(), symbol.to_string()));
        params.push(("side".to_string(), upper));
        params.push(("type".to_string(), "MARKET".to_string()));
        params.push(("quantity".to_string(), written));
        proof {
            assert(signing::params_view(params@) =~= seq![
                signing::ParamView { name: "symbol"@, value: symbol@ },
                signing::ParamView { name: "side"@, value: text::uppercase(side@) },
                signing::ParamView { name: "type"@, value: "MARKET"@ },
                signing::ParamView { name: "quantity"@, value: written@ },
            ]);
        }
        Ok(params)
    }

    /// The result of an order that the outcome of placing it gives.
    pub fn place_market_order<A: Arithmetic<F>>(a: &A, response: &Result<Value, String>) -> (outcome:
        Result<OrderResult<F>, String>)
        ensures
            *response matches Err(e) ==> (outcome matches Err(message) && message@ == e@),
            forall|m: Model<F>| #[trigger]
                arith::describes(m, *a) ==> order_outcome(outcome) == (match *response {
                    Ok(value) => order_of(m, json::json_of(value)),
                    Err(e) => Err(e@),
                }),
    {
        let value: &Value = match response {
            Ok(value) => value,
            Err(e) => {
                return Err(e.clone());
            },
        };
        let order_id: u64 = match extract_u64(value, "orderId") {
            Ok(found) => found,
            Err(e) => {
                return Err(e);
            },
        };
        let symbol: String = match extract_string(value, "symbol") {
            Ok(found) => found,
            Err(e) => {
                return Err(e);
            },
        };
        let side: String = match extract_string(value, "side") {
            Ok(found) => found,
            Err(e) => {
                return Err(e);
            },
        };
        let price: F = match extract_f64(a, value, "price") {
            Ok(found) => found,
            Err(e) => {
                return Err(e);
            },
        };
        let orig_qty: F = match extract_f64(a, value, "origQty") {
            Ok(found) => found,
            Err(e) => {
                return Err(e);
            },
        };
        let executed_qty: F = match extract_f64(a, value, "executedQty") {
            Ok(found) => found,
            Err(e) => {
                return Err(e);
            },
        };
        let status: String = match extract_string(value, "status") {
            Ok(found) => found,
            Err(e) => {
                return Err(e);
            },
        };
        let order_type: String = match extract_string(value, "type") {
            Ok(found) => found,
            Err(e) => {
                return Err(e);
            },
        };
        Ok(
            OrderResult {
                order_id,
                symbol,
                side,
                price,
                orig_qty,
                executed_qty,
                status,
                order_type,
            },
        )
    }

    /// The parameters of a query for fills.
    pub fn user_trades_params(symbol: &str, from_id: Option<u64>, limit: u32) -> (params: Vec<
        (String, String),
    >)
        ensures
            signing::params_view(params@) == trade_params(symbol@, from_id, limit),
    {
        let capped: u32 = if limit < TRADE_PAGE_LIMIT {
            limit
        } else {
            TRADE_PAGE_LIMIT
        };
        let count: String = decimal_text(capped as u128);
        let mut params: Vec<(String, String)> = Vec::new();
        params.push(("symbol".to_string(), symbol.to_string()));
        params.push(("limit".to_string(), count));
        if let Some(id) = from_id {
            let start: String = decimal_text(id as u128);
            params.push(("fromId".to_string(), start));
        }
        proof {
            assert(signing::params_view(params@) =~= trade_params(symbol@, from_id, limit));
        }
        params
    }

    /// The fills that the outcome of a query for them gives.
    pub fn get_user_trades<A: Arithmetic<F>>(a: &A, response: &Result<Value, String>) -> (outcome:
        Result<Vec<UserTrade<F>>, String>)
        ensures
            *response matches Err(e) ==> (outcome matches Err(message) && message@ == e@),
            forall|m: Model<F>| #[trigger]
                arith::describes(m, *a) ==> fills_outcome(outcome) == (match *response {
                    Ok(value) => match json::json_of(value) {
                        Json::List(items) => fills_of(m, items),
                        _ => Err("Expected array response from userTrades"@),
                    },
                    Err(e) => Err(e@),
                }),
    {
        match response {
            Err(e) => Err(e.clone()),
            Ok(value) => match shape_of(value) {
                Shape::List(items) => read_fills(a, items),
                _ => Err("Expected array response from userTrades".to_string()),
            },
        }
    }
}

/// The parameters of a query for fills: at most a page of them.
pub open spec fn trade_params(symbol: Seq<char>, from_id: Option<u64>, limit: u32) -> Seq<
    signing::ParamView,
> {
    let capped = if limit < TRADE_PAGE_LIMIT {
        limit
    } else {
        TRADE_PAGE_LIMIT
    };
    let base = seq![
        signing::ParamView { name: "symbol"@, value: symbol },
        signing::ParamView { name: "limit"@, value: text::decimal(capped as nat) },
    ];
    match from_id {
        Some(id) => base.push(
            signing::ParamView { name: "fromId"@, value: text::decimal(id as nat) },
        ),
        None => base,
    }
}

// ---------------------------------------------------------------------------
// All fills, page by page
// ---------------------------------------------------------------------------

/// The fills of a symbol, collected page by page from the oldest on.
#[derive(Debug)]
pub struct TradePages<F> {
    /// What has been collected, oldest first.
    pub trades: Vec<UserTrade<F>>,
    /// Where the next page starts.
    pub from_id: u64,
    /// Whether the last page has come.
    pub done: bool,
}

/// Where the page behind a page starts; an empty page leaves the start as it is.
pub open spec fn next_start<F>(from_id: u64, page: Seq<FillView<F>>) -> int {
    if page.len() == 0 {
        from_id as int
    } else {
        page.last().id + 1
    }
}

impl<F: Copy> TradePages<F> {
    /// Nothing collected; the first page starts at the oldest fill.
    pub fn new() -> (pages: TradePages<F>)
        ensures
            fill_views(pages.trades@) == Seq::<FillView<F>>::empty(),
            pages.from_id == 1,
            !pages.done,
    {
        let pages = TradePages { trades: Vec::new(), from_id: 1, done: false };
        proof {
            assert(fill_views(pages.trades@) =~= Seq::<FillView<F>>::empty());
        }
        pages
    }

    /// The parameters of the next query, none once all pages have come.
    pub fn next_request(&self, symbol: &str) -> (params: Option<Vec<(String, String)>>)
        ensures
            match params {
                None => self.done,
                Some(list) => !self.done && signing::params_view(list@) == trade_params(
                    symbol@,
                    Some(self.from_id),
                    TRADE_PAGE_LIMIT,
                ),
            },
    {
        if self.done {
            None
        } else {
            Some(
                BinanceTestnetClient::<F>::user_trades_params(
                    symbol,
                    Some(self.from_id),
                    TRADE_PAGE_LIMIT,
                ),
            )
        }
    }

    /// Takes a page. A page that is not full is the last one.
    pub fn accept(&mut self, page: Vec<UserTrade<F>>)
        requires
            page@.len() > 0 ==> page@.last().id < u64::MAX,
        ensures
            fill_views(final(self).trades@) == fill_views(old(self).trades@) + fill_views(page@),
            final(self).from_id == next_start(old(self).from_id, fill_views(page@)),
            final(self).done == (page@.len() < TRADE_PAGE_LIMIT),
    {
        let ghost before = fill_views(self.trades@);
        let ghost added = fill_views(page@);
        let mut rest: Vec<UserTrade<F>> = page;
        let count: usize = rest.len();
        if count > 0 {
            self.from_id = rest[count - 1].id + 1;
        }
        self.trades.append(&mut rest);
        self.done = count < TRADE_PAGE_LIMIT as usize;
        proof {
            assert(fill_views(self.trades@) =~= before + added);
        }
    }
}

// ---------------------------------------------------------------------------
// Rules for quantities
// ---------------------------------------------------------------------------

/// The string in a member of a value.
pub open spec fn text_member(item: Json, name: Seq<char>) -> Option<Seq<char>> {
    match json::member_of(item, name) {
        Some(Json::Text(text)) => Some(text),
        _ => None,
    }
}

/// The list in a member of a value.
pub open spec fn list_member(item: Json, name: Seq<char>) -> Option<Seq<Json>> {
    match json::member_of(item, name) {
        Some(Json::List(items)) => Some(items),
        _ => None,
    }
}

/// The number above zero that the string in a member spells.
pub open spec fn positive_member<F>(m: Model<F>, item: Json, name: Seq<char>) -> Option<F> {
    match text_member(item, name) {
        Some(text) => match (m.parse)(text) {
            Ok(number) if m.less(m.zero(), number) => Some(number),
            _ => None,
        },
        None => None,
    }
}

/// The number in a member of the last filter of a kind.
pub open spec fn filter_number<F>(
    m: Model<F>,
    filters: Seq<Json>,
    kind: Seq<char>,
    name: Seq<char>,
) -> Option<F>
    decreases filters.len(),
{
    if filters.len() == 0 {
        None
    } else if text_member(filters.last(), "filterType"@) == Some(kind) {
        positive_member(m, filters.last(), name)
    } else {
        filter_number(m, filters.drop_last(), kind, name)
    }
}

/// The first entry of a list with a symbol.
pub open spec fn find_symbol(items: Seq<Json>, symbol: Seq<char>) -> Option<Json>
    decreases items.len(),
{
    if items.len() == 0 {
        None
    } else if text_member(items[0], "symbol"@) == Some(symbol) {
        Some(items[0])
    } else {
        find_symbol(items.skip(1), symbol)
    }
}

/// The filters of a symbol.
pub open spec fn symbol_filters(info: Json, symbol: Seq<char>) -> Option<Seq<Json>> {
    match list_member(info, "symbols"@) {
        Some(items) => match find_symbol(items, symbol) {
            Some(entry) => list_member(entry, "filters"@),
            None => None,
        },
        None => None,
    }
}

/// The first of two numbers that there is, or else a third.
pub open spec fn preferred<F>(first: Option<F>, second: Option<F>, otherwise: F) -> F {
    match (first, second) {
        (Some(x), _) => x,
        (None, Some(x)) => x,
        (None, None) => otherwise,
    }
}

/// The steps and the least quantity of a symbol: those for market orders are
/// preferred over those for all orders, and what is not given stays.
pub struct QuantityRules<F> {
    pub step_size: F,
    pub market_step_size: F,
    pub min_qty: F,
}

/// The rules that the filters of a symbol give.
pub open spec fn rules_of<F>(m: Model<F>, filters: Seq<Json>, old: QuantityRules<F>) -> QuantityRules<
    F,
> {
    let lot_step = filter_number(m, filters, "LOT_SIZE"@, "stepSize"@);
    let lot_min = filter_number(m, filters, "LOT_SIZE"@, "minQty"@);
    let market_step = filter_number(m, filters, "MARKET_LOT_SIZE"@, "stepSize"@);
    let market_min = filter_number(m, filters, "MARKET_LOT_SIZE"@, "minQty"@);
    QuantityRules {
        step_size: preferred(lot_step, None, old.step_size),
        market_step_size: preferred(market_step, lot_step, old.market_step_size),
        min_qty: preferred(market_min, lot_min, old.min_qty),
    }
}

/// The string in a member of a value.
fn read_text<'a>(item: &'a Value, name: &str) -> (found: Option<&'a String>)
    ensures
        match found {
            Some(text) => text_member(json::json_of(*item), name@) == Some(text@),
            None => text_member(json::json_of(*item), name@) is None,
        },
{
    match get_member(item, name) {
        Some(member) => match shape_of(member) {
            Shape::Text(text) => Some(text),
            _ => None,
        },
        None => None,
    }
}

/// The list in a member of a value.
fn read_list<'a>(item: &'a Value, name: &str) -> (found: Option<&'a Vec<Value>>)
    ensures
        match found {
            Some(items) => list_member(json::json_of(*item), name@) == Some(json::jsons(items@)),
            None => list_member(json::json_of(*item), name@) is None,
        },
{
    match get_member(item, name) {
        Some(member) => match shape_of(member) {
            Shape::List(items) => Some(items),
            _ => None,
        },
        None => None,
    }
}

/// The number above zero that the string in a member spells.
fn read_positive<F: Copy, A: Arithmetic<F>>(a: &A, item: &Value, name: &str) -> (found: Option<F>)
    ensures
        forall|m: Model<F>| #[trigger]
            arith::describes(m, *a) ==> found == positive_member(m, json::json_of(*item), name@),
{
    match read_text(item, name) {
        Some(text) => match arith::parse(a, text) {
            Ok(number) => if arith::less(a, arith::zero(a), number) {
                Some(number)
            } else {
                None
            },
            Err(_) => None,
        },
        None => None,
    }
}

/// The number in a member of the last filter of a kind.
fn read_filter<F: Copy, A: Arithmetic<F>>(
    a: &A,
    filters: &Vec<Value>,
    kind: &str,
    name: &str,
) -> (found: Option<F>)
    ensures
        forall|m: Model<F>| #[trigger]
            arith::describes(m, *a) ==> found == filter_number(
                m,
                json::jsons(filters@),
                kind@,
                name@,
            ),
{
    let ghost all = json::jsons(filters@);
    let mut i: usize = filters.len();
    proof {
        assert(all.take(all.len() as int) =~= all);
    }
    while i > 0
        invariant
            i <= filters.len(),
            all == json::jsons(filters@),
            forall|m: Model<F>| #[trigger]
                arith::describes(m, *a) ==> filter_number(m, all, kind@, name@) == filter_number(
                    m,
                    all.take(i as int),
                    kind@,
                    name@,
                ),
        decreases i,
    {
        proof {
            assert(all.take(i as int).last() == json::json_of(filters@[i - 1]));
            assert(all.take(i as int).drop_last() =~= all.take(i - 1));
        }
        if let Some(found) = read_text(&filters[i - 1], "filterType") {
            if same_text(found, kind) {
                return read_positive(a, &filters[i - 1], name);
            }
        }
        i -= 1;
    }
    None
}

/// The filters of a symbol.
fn read_symbol_filters<'a>(info: &'a Value, symbol: &str) -> (filters: Option<&'a Vec<Value>>)
    ensures
        match filters {
            Some(items) => symbol_filters(json::json_of(*info), symbol@) == Some(
                json::jsons(items@),
            ),
            None => symbol_filters(json::json_of(*info), symbol@) is None,
        },
{
    let items: &Vec<Value> = match read_list(info, "symbols") {
        Some(items) => items,
        None => {
            return None;
        },
    };
    let ghost all = json::jsons(items@);
    let mut i: usize = 0;
    proof {
        assert(all.skip(0) =~= all);
    }
    while i < items.len()
        invariant
            i <= items.len(),
            all == json::jsons(items@),
            list_member(json::json_of(*info), "symbols"@) == Some(all),
            find_symbol(all, symbol@) == find_symbol(all.skip(i as int), symbol@),
        decreases items.len() - i,
    {
        proof {
            assert(all.skip(i as int)[0] == json::json_of(items@[i as int]));
            assert(all.skip(i as int).skip(1) =~= all.skip(i as int + 1));
        }
        if let Some(found) = read_text(&items[i], "symbol") {
            if same_text(found, symbol) {
                return read_list(&items[i], "filters");
            }
        }
        i += 1;
    }
    None
}

/// What a reply to the query for symbol rules leaves behind in the log.
pub open spec fn symbol_info_log(log: Seq<LogView>, now: u64, reply: Reply) -> Seq<LogView> {
    let note = |status: Option<u16>, body: Seq<char>, is_error: bool|
        execution::logged(
            log,
            execution::note(now, "GET"@, "/fapi/v1/exchangeInfo"@, status, body, is_error),
        );
    match reply {
        Reply::NoResponse(cause) => note(None, "Request failed: "@ + cause@, true),
        Reply::Response { status, body: Err(cause) } => note(
            Some(status),
            "Failed to read response: "@ + cause@,
            true,
        ),
        Reply::Response { status, body: Ok(body) } => match json::json_parsed(body@) {
            Ok(_) => note(Some(status), "Symbol info fetched"@, false),
            Err(_) => log,
        },
    }
}

/// The filters of a symbol that a reply gives.
pub open spec fn replied_filters(reply: Reply, symbol: Seq<char>) -> Option<Seq<Json>> {
    match reply {
        Reply::Response { body: Ok(body), .. } => match json::json_parsed(body@) {
            Ok(info) => symbol_filters(info, symbol),
            Err(_) => None,
        },
        _ => None,
    }
}

impl<F: Copy> BinanceTestnetClient<F> {
    /// The rules for quantities that a client goes by.
    pub open spec fn rules(&self) -> QuantityRules<F> {
        QuantityRules {
            step_size: self.step_size,
            market_step_size: self.market_step_size,
            min_qty: self.min_qty,
        }
    }

    /// The address of the query for the rules of a symbol.
    pub fn symbol_info_url(&self, symbol: &str) -> (url: String)
        ensures
            url@ == self.base_url@ + "/fapi/v1/exchangeInfo"@ + "?symbol="@ + text::uppercase(
                symbol@,
            ),
    {
        let mut url: String = self.base_url.clone();
        url.append("/fapi/v1/exchangeInfo");
        url.append("?symbol=");
        url.append(&text::to_upper(symbol));
        url
    }

    /// Takes over the rules that a value gives for a symbol.
    fn adopt_rules<A: Arithmetic<F>>(&mut self, a: &A, info: &Value, symbol: &str)
        ensures
            final(self).error_log == old(self).error_log,
            final(self).api_key == old(self).api_key,
            final(self).secret_key == old(self).secret_key,
            final(self).base_url == old(self).base_url,
            final(self).recv_window == old(self).recv_window,
            symbol_filters(json::json_of(*info), symbol@) is None ==> final(self).rules()
                == old(self).rules(),
            forall|m: Model<F>| #[trigger]
                arith::describes(m, *a) ==> (symbol_filters(
                    json::json_of(*info),
                    symbol@,
                ) matches Some(filters) ==> final(self).rules() == rules_of(
                    m,
                    filters,
                    old(self).rules(),
                )),
    {
        let filters: &Vec<Value> = match read_symbol_filters(info, symbol) {
            Some(filters) => filters,
            None => {
                return;
            },
        };
        let lot_step: Option<F> = read_filter(a, filters, "LOT_SIZE", "stepSize");
        let lot_min: Option<F> = read_filter(a, filters, "LOT_SIZE", "minQty");
        let market_step: Option<F> = read_filter(a, filters, "MARKET_LOT_SIZE", "stepSize");
        let market_min: Option<F> = read_filter(a, filters, "MARKET_LOT_SIZE", "minQty");
        if let Some(step) = market_step {
            self.market_step_size = step;
        } else if let Some(step) = lot_step {
            self.market_step_size = step;
        }
        if let Some(step) = lot_step {
            self.step_size = step;
        }
        if let Some(least) = market_min {
            self.min_qty = least;
        } else if let Some(least) = lot_min {
            self.min_qty = least;
        }
    }

    /// Takes over the rules for a symbol from a reply that came at a given time,
    /// and logs it.
    pub fn fetch_symbol_info<A: Arithmetic<F>>(
        &mut self,
        a: &A,
        now: u64,
        symbol: &str,
        reply: &Reply,
    )
        ensures
            final(self).api_key == old(self).api_key,
            final(self).secret_key == old(self).secret_key,
            final(self).base_url == old(self).base_url,
            final(self).recv_window == old(self).recv_window,
            final(self).log_view() == symbol_info_log(old(self).log_view(), now, *reply),
            replied_filters(*reply, text::uppercase(symbol@)) is None ==> final(self).rules()
                == old(self).rules(),
            forall|m: Model<F>| #[trigger]
                arith::describes(m, *a) ==> (replied_filters(
                    *reply,
                    text::uppercase(symbol@),
                ) matches Some(filters) ==> final(self).rules() == rules_of(
                    m,
                    filters,
                    old(self).rules(),
                )),
    {
        let path: &'static str = "/fapi/v1/exchangeInfo";
        match reply {
            Reply::NoResponse(cause) => {
                let mut message: String = "Request failed: ".to_string();
                message.append(cause);
                self.log_at(now, "GET", path, None, &message, true);
            },
            Reply::Response { status, body } => match body {
                Err(cause) => {
                    let mut message: String = "Failed to read response: ".to_string();
                    message.append(cause);
                    self.log_at(now, "GET", path, Some(*status), &message, true);
                },
                Ok(body) => {
                    if let Ok(info) = parse_json(body) {
                        let upper: String = text::to_upper(symbol);
                        self.adopt_rules(a, &info, &upper);
                        self.log_at(now, "GET", path, Some(*status), "Symbol info fetched", false);
                    }
                },
            },
        }
    }
}

// ---------------------------------------------------------------------------
// Laws
// ---------------------------------------------------------------------------

/// Where the page behind some pages starts.
pub open spec fn start_after<F>(pages: Seq<Seq<FillView<F>>>) -> int
    decreases pages.len(),
{
    if pages.len() == 0 {
        1
    } else if pages.last().len() == 0 {
        start_after(pages.drop_last())
    } else {
        pages.last().last().id + 1
    }
}

/// The fills of some pages one behind the other.
pub open spec fn collected<F>(pages: Seq<Seq<FillView<F>>>) -> Seq<FillView<F>>
    decreases pages.len(),
{
    if pages.len() == 0 {
        Seq::empty()
    } else {
        collected(pages.drop_last()) + pages.last()
    }
}

/// Where every page holds fills from its start on, by rising number, the fills
/// collected from all pages are by rising number too, so no fill is collected
/// twice.
pub proof fn law_pages_do_not_overlap<F>(pages: Seq<Seq<FillView<F>>>)
    requires
        forall|p: int, i: int|
            0 <= p < pages.len() && 0 <= i < pages[p].len() ==> start_after(pages.take(p)) <= (
            #[trigger] pages[p][i]).id,
        forall|p: int, i: int, j: int|
            0 <= p < pages.len() && 0 <= i < j < pages[p].len() ==> (#[trigger] pages[p][i]).id < (
            #[trigger] pages[p][j]).id,
    ensures
        forall|i: int, j: int|
            0 <= i < j < collected(pages).len() ==> (#[trigger] collected(pages)[i]).id < (
            #[trigger] collected(pages)[j]).id,
        forall|i: int|
            0 <= i < collected(pages).len() ==> (#[trigger] collected(pages)[i]).id < start_after(
                pages,
            ),
    decreases pages.len(),
{
    if pages.len() > 0 {
        let front = pages.drop_last();
        let last = pages.last();
        let n = pages.len() - 1;
        assert forall|p: int, i: int| 0 <= p < front.len() && 0 <= i < front[p].len() implies
            start_after(front.take(p)) <= (#[trigger] front[p][i]).id by {
            assert(front.take(p) =~= pages.take(p));
            assert(front[p][i] == pages[p][i]);
        }
        assert forall|p: int, i: int, j: int|
            0 <= p < front.len() && 0 <= i < j < front[p].len() implies (#[trigger] front[p][i]).id
            < (#[trigger] front[p][j]).id by {
            assert(front[p][i] == pages[p][i]);
            assert(front[p][j] == pages[p][j]);
        }
        law_pages_do_not_overlap(front);
        assert(pages.take(n) =~= front);
        let before = collected(front);
        let all = collected(pages);
        assert forall|i: int, j: int| 0 <= i < j < all.len() implies (#[trigger] all[i]).id < (
        #[trigger] all[j]).id by {
            if j < before.len() {
                assert(all[i] == before[i] && all[j] == before[j]);
            } else if i < before.len() {
                assert(all[i] == before[i]);
                assert(all[j] == pages[n][j - before.len()]);
            } else {
                assert(all[i] == pages[n][i - before.len()]);
                assert(all[j] == pages[n][j - before.len()]);
            }
        }
        assert forall|i: int| 0 <= i < all.len() implies (#[trigger] all[i]).id < start_after(
            pages,
        ) by {
            if last.len() == 0 {
                assert(all[i] == before[i]);
            } else {
                let end = last.len() - 1;
                assert(pages[n][end] == last.last());
                if i < before.len() {
                    assert(all[i] == before[i]);
                    assert(start_after(pages.take(n)) <= pages[n][end].id);
                } else {
                    assert(all[i] == pages[n][i - before.len()]);
                    if i - before.len() < end {
                        assert(pages[n][i - before.len()].id < pages[n][end].id);
                    }
                }
            }
        }
    }
}

/// In exact arithmetic a quantity that is cut is a whole number of steps, above
/// the quantity by no more than a millionth of a step and below it by less than a
/// step.
pub proof fn law_cut_quantity_is_whole_steps<F>(
    m: Model<F>,
    v: spec_fn(F) -> real,
    quantity: F,
    step: F,
)
    requires
        arith::rounds_exactly(m, v),
        v(step) > 0real,
    ensures
        ({
            let cut = v(whole_steps(m, quantity, step));
            let s = v(step);
            &&& exists|n: int| cut == (#[trigger] arith::whole_value(n)) * s
            &&& 1_000_000real * (cut - v(quantity)) <= s
            &&& v(quantity) - cut < s
        }),
{
    arith::lemma_fraction(m, v, 1, 1_000_000);
    let tiny = v(m.ratio(1, 1_000_000));
    assert(tiny * 1_000_000real == 1real) by {
        assert(1_000_000int as real == 1_000_000real);
        assert(1int as real == 1real);
    }
    let (q, s) = (v(quantity), v(step));
    arith::lemma_quotient(q, s);
    let part = q / s;
    let whole = v(m.floor(m.plus(m.over(quantity, step), m.ratio(1, 1_000_000))));
    assert(arith::is_whole(whole));
    let n = choose|n: int| whole == #[trigger] arith::whole_value(n);
    assert(v(whole_steps(m, quantity, step)) == arith::whole_value(n) * s);
    assert(whole * s <= q + tiny * s) by (nonlinear_arith)
        requires
            part * s == q,
            whole <= part + tiny,
            s > 0real,
    ;
    assert(q < whole * s + s) by (nonlinear_arith)
        requires
            part * s == q,
            part + tiny < whole + 1real,
            tiny > 0real,
            s > 0real,
    ;
    assert(1_000_000real * (tiny * s) == s) by (nonlinear_arith)
        requires
            tiny * 1_000_000real == 1real,
    ;
}

/// What is read of a fill, an order, a position and an account is what their
/// members of those names hold, and a reading fails exactly where one of the
/// members cannot be read.
pub proof fn law_readings_come_from_their_members<F>(
    m: Model<F>,
    item: Json,
    symbol: Seq<char>,
)
    ensures
        ({
            let read = fill_of(m, item);
            let number = |name: Seq<char>| json::number_field(m, item, name);
            &&& read matches Ok(fill) ==> {
                &&& json::u64_field(item, "id"@) == Ok::<u64, Seq<char>>(fill.id)
                &&& json::string_field(item, "symbol"@) == Ok::<Seq<char>, Seq<char>>(fill.symbol)
                &&& json::string_field(item, "side"@) == Ok::<Seq<char>, Seq<char>>(fill.side)
                &&& number("price"@) == Ok::<F, Seq<char>>(fill.price)
                &&& number("qty"@) == Ok::<F, Seq<char>>(fill.qty)
                &&& number("realizedPnl"@) == Ok::<F, Seq<char>>(fill.realized_pnl)
                &&& number("commission"@) == Ok::<F, Seq<char>>(fill.commission)
                &&& json::u64_field(item, "time"@) == Ok::<u64, Seq<char>>(fill.time)
                &&& json::bool_field(item, "buyer"@) == Ok::<bool, Seq<char>>(fill.buyer)
                &&& json::bool_field(item, "maker"@) == Ok::<bool, Seq<char>>(fill.maker)
            }
            &&& json::u64_field(item, "id"@) is Ok && json::string_field(item, "symbol"@) is Ok
                && json::string_field(item, "side"@) is Ok && number("price"@) is Ok && number(
                "qty"@,
            ) is Ok && number("realizedPnl"@) is Ok && number("commission"@) is Ok
                && json::string_field(item, "commissionAsset"@) is Ok && json::u64_field(
                item,
                "time"@,
            ) is Ok && json::string_field(item, "positionSide"@) is Ok && json::bool_field(
                item,
                "buyer"@,
            ) is Ok && json::bool_field(item, "maker"@) is Ok <==> read is Ok
        }),
        ({
            let read = order_of(m, item);
            let number = |name: Seq<char>| json::number_field(m, item, name);
            read matches Ok(order) ==> {
                &&& json::u64_field(item, "orderId"@) == Ok::<u64, Seq<char>>(order.order_id)
                &&& json::string_field(item, "symbol"@) == Ok::<Seq<char>, Seq<char>>(order.symbol)
                &&& json::string_field(item, "side"@) == Ok::<Seq<char>, Seq<char>>(order.side)
                &&& number("price"@) == Ok::<F, Seq<char>>(order.price)
                &&& number("origQty"@) == Ok::<F, Seq<char>>(order.orig_qty)
                &&& number("executedQty"@) == Ok::<F, Seq<char>>(order.executed_qty)
                &&& json::string_field(item, "status"@) == Ok::<Seq<char>, Seq<char>>(order.status)
                &&& json::string_field(item, "type"@) == Ok::<Seq<char>, Seq<char>>(
                    order.order_type,
                )
            }
        }),
        ({
            let read = holding_of(m, symbol, item);
            let number = |name: Seq<char>| json::number_field(m, item, name);
            &&& read matches Ok(Some(held)) ==> {
                &&& held.symbol == symbol
                &&& number("positionAmt"@) == Ok::<F, Seq<char>>(held.position_amt)
                &&& !m.equal(held.position_amt, m.zero())
                &&& number("entryPrice"@) == Ok::<F, Seq<char>>(held.entry_price)
                &&& number("unRealizedProfit"@) == Ok::<F, Seq<char>>(held.unrealized_pnl)
                &&& json::u32_field(item, "leverage"@) == Ok::<u32, Seq<char>>(held.leverage)
            }
            &&& (read == Ok::<Option<HoldingView<F>>, Seq<char>>(None)) == (match number(
                "positionAmt"@,
            ) {
                Ok(amount) => m.equal(amount, m.zero()),
                Err(_) => false,
            })
        }),
        ({
            let read = account_of(m, item);
            let number = |name: Seq<char>| json::number_field(m, item, name);
            read matches Ok(account) ==> {
                &&& number("totalWalletBalance"@) == Ok::<F, Seq<char>>(
                    account.total_wallet_balance,
                )
                &&& number("totalMarginBalance"@) == Ok::<F, Seq<char>>(
                    account.total_margin_balance,
                )
                &&& number("availableBalance"@) == Ok::<F, Seq<char>>(account.available_balance)
                &&& number("totalUnrealizedProfit"@) == Ok::<F, Seq<char>>(account.unrealized_pnl)
            }
        }),
{
}

/// The steps and the least quantity of market orders come from the filter for
/// market orders where it gives them, else from the one for all orders, and stay
/// as they are where neither does.
pub proof fn law_market_filters_come_first<F>(
    m: Model<F>,
    filters: Seq<Json>,
    before: QuantityRules<F>,
)
    ensures
        ({
            let rules = rules_of(m, filters, before);
            let market = |name: Seq<char>| filter_number(m, filters, "MARKET_LOT_SIZE"@, name);
            let lot = |name: Seq<char>| filter_number(m, filters, "LOT_SIZE"@, name);
            &&& market("stepSize"@) matches Some(step) ==> rules.market_step_size == step
            &&& market("stepSize"@) is None && lot("stepSize"@) is Some ==> lot("stepSize"@)
                == Some(rules.market_step_size)
            &&& market("minQty"@) matches Some(least) ==> rules.min_qty == least
            &&& market("minQty"@) is None && lot("minQty"@) is Some ==> lot("minQty"@) == Some(
                rules.min_qty,
            )
            &&& lot("stepSize"@) matches Some(step) ==> rules.step_size == step
            &&& lot("stepSize"@) is None ==> rules.step_size == before.step_size
            &&& market("stepSize"@) is None && lot("stepSize"@) is None ==> rules.market_step_size
                == before.market_step_size
            &&& market("minQty"@) is None && lot("minQty"@) is None ==> rules.min_qty
                == before.min_qty
        }),
{
}

/// Fills are read one by one in the order in which they came.
pub proof fn law_fills_keep_their_order<F>(m: Model<F>, items: Seq<Json>)
    ensures
        fills_of(m, items) matches Ok(fills) ==> fills.len() == items.len() && forall|i: int|
            0 <= i < items.len() ==> fill_of(m, #[trigger] items[i]) == Ok::<
                FillView<F>,
                Seq<char>,
            >(fills[i]),
        (forall|i: int| 0 <= i < items.len() ==> fill_of(m, #[trigger] items[i]) is Ok)
            ==> fills_of(m, items) is Ok,
    decreases items.len(),
{
    if items.len() > 0 {
        let front = items.drop_last();
        law_fills_keep_their_order(m, front);
        if let Ok(fills) = fills_of(m, items) {
            assert forall|i: int| 0 <= i < items.len() implies fill_of(m, #[trigger] items[i])
                == Ok::<FillView<F>, Seq<char>>(fills[i]) by {
                if i < items.len() - 1 {
                    assert(front[i] == items[i]);
                }
            }
        }
        if forall|i: int| 0 <= i < items.len() ==> fill_of(m, #[trigger] items[i]) is Ok {
            assert forall|i: int| 0 <= i < front.len() implies fill_of(
                m,
                #[trigger] front[i],
            ) is Ok by {
                assert(front[i] == items[i]);
            }
            assert(fill_of(m, items[items.len() - 1]) is Ok);
        }
    }
}

proof fn lemma_first_point(s: Seq<char>, at: int)
    requires
        0 <= at < s.len(),
        s[at] == '.',
        forall|i: int| 0 <= i < at ==> #[trigger] s[i] != '.',
    ensures
        first_point(s) == Some(at),
    decreases s.len(),
{
    if at > 0 {
        let rest = s.skip(1);
        assert(rest[at - 1] == s[at]);
        assert forall|i: int| 0 <= i < at - 1 implies #[trigger] rest[i] != '.' by {
            assert(rest[i] == s[i + 1]);
        }
        lemma_first_point(rest, at - 1);
    }
}

proof fn lemma_no_point(s: Seq<char>)
    requires
        forall|i: int| 0 <= i < s.len() ==> #[trigger] s[i] != '.',
    ensures
        first_point(s) is None,
    decreases s.len(),
{
    if s.len() > 0 {
        let rest = s.skip(1);
        assert forall|i: int| 0 <= i < rest.len() implies #[trigger] rest[i] != '.' by {
            assert(rest[i] == s[i + 1]);
        }
        lemma_no_point(rest);
    }
}

proof fn lemma_without_zeros(s: Seq<char>)
    ensures
        ({
            let kept = without_zeros(s);
            &&& kept.len() <= s.len()
            &&& kept == s.take(kept.len() as int)
            &&& forall|i: int| kept.len() <= i < s.len() ==> #[trigger] s[i] == '0'
            &&& kept.len() > 0 ==> kept.last() != '0'
        }),
    decreases s.len(),
{
    if s.len() > 0 && s.last() == '0' {
        let front = s.drop_last();
        lemma_without_zeros(front);
        let kept = without_zeros(s);
        assert(kept =~= s.take(kept.len() as int));
        assert forall|i: int| kept.len() <= i < s.len() implies #[trigger] s[i] == '0' by {
            if i < front.len() {
                assert(front[i] == s[i]);
            }
        }
    } else {
        assert(s =~= s.take(s.len() as int));
    }
}

/// Shortening a fixed-point text takes away only zeros from its end: it keeps the
/// point and all before it, and behind the point no zero is left at the end.
pub proof fn law_shortening_takes_only_zeros(s: Seq<char>, point: int)
    requires
        0 <= point < s.len(),
        forall|i: int| 0 <= i < s.len() ==> (#[trigger] s[i] == '.' <==> i == point),
    ensures
        ({
            let n = shortened(s).len() as int;
            &&& point < n <= s.len()
            &&& shortened(s) == s.take(n)
            &&& forall|i: int| n <= i < s.len() ==> #[trigger] s[i] == '0'
            &&& s[n - 1] != '0'
        }),
{
    reveal_strlit(".");
    lemma_without_zeros(s);
    let kept = without_zeros(s);
    assert(kept.len() > point) by {
        if kept.len() <= point {
            assert(s[point] == '0');
        }
    }
    let last = kept.len() - 1;
    assert(kept[last] == s[last]);
    if last == point {
        let front = kept.drop_last();
        assert(without_points(kept) == without_points(front));
        assert(without_points(front) == front) by {
            if front.len() > 0 {
                assert(front.last() == s[point - 1]);
            }
        }
        assert forall|i: int| 0 <= i < front.len() implies #[trigger] front[i] != '.' by {
            assert(front[i] == s[i]);
        }
        lemma_no_point(front);
        assert(shortened(s) =~= s.take(point + 1));
    } else {
        assert(without_points(kept) == kept);
        assert(kept[point] == s[point]);
        assert forall|i: int| 0 <= i < point implies #[trigger] kept[i] != '.' by {
            assert(kept[i] == s[i]);
        }
        lemma_first_point(kept, point);
    }
}

/// The places of a number's text are those behind its point up to the last that
/// is no zero; a text without a point has none.
pub proof fn law_places_end_with_the_last_that_counts(digits: Seq<char>, point: int)
    ensures
        0 <= point < digits.len() && (forall|i: int|
            0 <= i < digits.len() ==> (#[trigger] digits[i] == '.' <==> i == point)) ==> {
            let places = places_of(digits) as int;
            &&& point + places < digits.len()
            &&& forall|i: int| point + places < i < digits.len() ==> #[trigger] digits[i] == '0'
            &&& places > 0 ==> digits[point + places] != '0'
        },
        (forall|i: int| 0 <= i < digits.len() ==> #[trigger] digits[i] != '.') ==> places_of(digits)
            == 0,
{
    if 0 <= point < digits.len() && (forall|i: int|
        0 <= i < digits.len() ==> (#[trigger] digits[i] == '.' <==> i == point)) {
        lemma_first_point(digits, point);
        let rest = digits.skip(point + 1);
        lemma_without_zeros(rest);
        let places = places_of(digits) as int;
        assert forall|i: int| point + places < i < digits.len() implies #[trigger] digits[i]
            == '0' by {
            assert(digits[i] == rest[i - point - 1]);
        }
        if places > 0 {
            assert(digits[point + places] == rest[places - 1]);
        }
    }
    if forall|i: int| 0 <= i < digits.len() ==> #[trigger] digits[i] != '.' {
        lemma_no_point(digits);
    }
}

} // verus!
