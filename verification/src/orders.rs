//! The order processor: placing an order against an owned position and
//! listing placed orders.
//!
//! Placement enforces ownership: the order row it writes always refers to
//! a quotation whose position belongs to the very portfolio named in the
//! request, owned by the authenticated account — or nothing is written.

use crate::errors::LedgerError;
use crate::find::first_where;
use crate::ledger::ord_in_portfolio;
use crate::ledger::pf_id_matches;
use crate::ledger::pos_id_matches;
use crate::ledger::Ledger;
use crate::ledger::OrderRow;
use crate::ledger::QuotationRow;
use crate::ledger::PositionRow;
use crate::numstr::spec_parse_u128;
use crate::numstr::parse_u128;
use crate::pairs::PairRegistry;
use crate::strutil::str_eq;
use vstd::prelude::*;
use vstd::string::StringExecFns;

verus! {

/// An order-placement request, prices and quantities as the decimal
/// strings they arrive in.
pub struct OrderData {
    pub base: String,
    pub quote: String,
    pub order_type: String,
    pub price: String,
    pub quantity: String,
    pub portfolio_id: i32,
}

/// One listed order, enriched with the pair's symbols and a state label.
pub struct OrderView {
    pub id: i32,
    pub buyin: bool,
    pub state: String,
    pub base: String,
    pub quote: String,
    pub qty: i64,
    pub price: i64,
}

/// A price or quantity string is accepted exactly when it denotes a
/// positive integer that fits a 64-bit signed column.
pub open spec fn spec_parse_qty(s: Seq<char>) -> Option<i64> {
    match spec_parse_u128(s) {
        Some(v) => if 1 <= v && v <= i64::MAX as u128 {
            Some(v as i64)
        } else {
            None
        },
        None => None,
    }
}

/// Parse a price or quantity string as `spec_parse_qty` says.
pub fn parse_qty(s: &str) -> (r: Option<i64>)
    ensures
        r == spec_parse_qty(s@),
{
    match parse_u128(s) {
        Some(v) => if 1 <= v && v <= i64::MAX as u128 {
            Some(v as i64)
        } else {
            None
        },
        None => None,
    }
}

/// The label a stored order state decodes to.
pub open spec fn spec_state_label(state: i32) -> Seq<char> {
    if state == 0 {
        "pending"@
    } else if state == 1 {
        "success"@
    } else if state == 2 {
        "fail"@
    } else {
        "unknown"@
    }
}

/// Decode a stored order state to its label.
pub fn state_label(state: i32) -> (r: String)
    ensures
        r@ == spec_state_label(state),
{
    if state == 0 {
        String::from_str("pending")
    } else if state == 1 {
        String::from_str("success")
    } else if state == 2 {
        String::from_str("fail")
    } else {
        String::from_str("unknown")
    }
}

/// Does a quotation match an order request: it carries the resolved
/// quote currency, and its owning position (looked up in the position
/// table) belongs to the named portfolio.
pub open spec fn quo_sel(ps: Seq<PositionRow>, qc: i32, pfid: i32) -> spec_fn(QuotationRow) -> bool {
    |q: QuotationRow| q.quote_currency_id == qc && match first_where(
        ps,
        pos_id_matches(q.position_id),
    ) {
        Some(pos) => pos.portfolio_id == pfid,
        None => false,
    }
}

/// The page of a selection: `[lo, hi)` clamped to length `n`, from a
/// start of `st` (default 0) and a page size of `len` (default 10),
/// negatives treated as zero.
pub open spec fn page_bounds(n: int, st: Option<i32>, len: Option<i32>) -> (int, int) {
    let s0: int = match st {
        Some(v) => if v < 0 {
            0
        } else {
            v as int
        },
        None => 0,
    };
    let l0: int = match len {
        Some(v) => if v < 0 {
            0
        } else {
            v as int
        },
        None => 10,
    };
    let lo = if s0 < n {
        s0
    } else {
        n
    };
    let hi = if s0 + l0 < n {
        s0 + l0
    } else {
        n
    };
    (lo, hi)
}

impl Ledger {
    /// The first quotation matching an order request against this
    /// portfolio.
    pub open spec fn spec_find_quotation(self, qc: i32, pfid: i32) -> Option<QuotationRow> {
        first_where(self.quotations@, quo_sel(self.positions@, qc, pfid))
    }

    /// The quotation an order placement would target: the portfolio must
    /// exist and be owned by the account, and a quotation of one of its
    /// positions must carry the resolved quote currency.
    pub open spec fn spec_order_target(self, qc: i32, account_id: i32, pfid: i32) -> Option<
        QuotationRow,
    > {
        match self.spec_portfolio_by_id(pfid) {
            Some(pf) => if pf.trader_account_id == account_id {
                self.spec_find_quotation(qc, pfid)
            } else {
                None
            },
            None => None,
        }
    }

    /// Place an order: resolve the pair, locate a quotation of the
    /// caller's own portfolio, check price and quantity, and append the
    /// order row with a pending state — or change nothing.
    ///
    /// `TradingPairNotFound` if and only if the symbols do not resolve;
    /// else `PositionNotFound` if and only if no quotation of the named,
    /// caller-owned portfolio matches — an order against someone else's
    /// portfolio never writes a row; else `InvalidQuantity` if and only
    /// if price or quantity is not a positive 64-bit integer.  The order
    /// id is assigned by the caller's external generator.
    #[verifier::loop_isolation(false)]
    pub fn place_order(
        &mut self,
        reg: &PairRegistry,
        account_id: i32,
        order_id: i32,
        data: &OrderData,
    ) -> (r: Result<i32, LedgerError>)
        requires
            old(self).wf(),
        ensures
            final(self).wf(),
            match reg.spec_resolve(data.base@, data.quote@) {
                None => r == Err::<i32, LedgerError>(LedgerError::TradingPairNotFound)
                    && *final(self) == *old(self),
                Some(t) => match old(self).spec_order_target(t.1, account_id, data.portfolio_id) {
                    None => r == Err::<i32, LedgerError>(LedgerError::PositionNotFound)
                        && *final(self) == *old(self),
                    Some(q) => match (spec_parse_qty(data.price@), spec_parse_qty(
                        data.quantity@,
                    )) {
                        (Some(price), Some(qty)) => {
                            &&& r == Ok::<i32, LedgerError>(order_id)
                            &&& final(self).orders@ == old(self).orders@.push(
                                OrderRow {
                                    id: order_id,
                                    quotation_id: q.id,
                                    trading_pair_id: t.2,
                                    portfolio_id: data.portfolio_id,
                                    state: 0,
                                    buyin: data.order_type@ == "buy"@,
                                    price,
                                    qty,
                                },
                            )
                            &&& final(self).portfolios@ == old(self).portfolios@
                            &&& final(self).positions@ == old(self).positions@
                            &&& final(self).quotations@ == old(self).quotations@
                            &&& final(self).balances@ == old(self).balances@
                            &&& final(self).next_portfolio_id == old(self).next_portfolio_id
                            &&& final(self).next_position_id == old(self).next_position_id
                            &&& final(self).next_quotation_id == old(self).next_quotation_id
                            &&& final(self).next_balance_id == old(self).next_balance_id
                        },
                        _ => r == Err::<i32, LedgerError>(LedgerError::InvalidQuantity)
                            && *final(self) == *old(self),
                    },
                },
            },
    {
        let (_base_id, quote_id, pair_id) = match reg.resolve(
            data.base.as_str(),
            data.quote.as_str(),
        ) {
            Ok(t) => t,
            Err(_) => {
                return Err(LedgerError::TradingPairNotFound);
            },
        };
        // the portfolio must exist and belong to the caller
        let pf_idx = match self.find_portfolio_by_id(data.portfolio_id) {
            Some(k) => k,
            None => {
                return Err(LedgerError::PositionNotFound);
            },
        };
        if self.portfolios[pf_idx].trader_account_id != account_id {
            return Err(LedgerError::PositionNotFound);
        }
        // first quotation of this portfolio carrying the quote currency
        let qn = self.quotations.len();
        let mut k: usize = 0;
        proof {
            crate::find::lemma_first_where_all(
                self.quotations@,
                quo_sel(self.positions@, quote_id, data.portfolio_id),
            );
        }
        while k < qn
            invariant
                0 <= k <= qn,
                first_where(self.quotations@, quo_sel(self.positions@, quote_id, data.portfolio_id))
                    == first_where(
                    self.quotations@.skip(k as int),
                    quo_sel(self.positions@, quote_id, data.portfolio_id),
                ),
            decreases qn - k,
        {
            proof {
                crate::find::lemma_first_where_step(
                    self.quotations@,
                    quo_sel(self.positions@, quote_id, data.portfolio_id),
                    k as int,
                );
                lemma_quo_sel_at(*self, quote_id, data.portfolio_id, k as int);
            }
            if self.quotations[k].quote_currency_id == quote_id && self.positions[k].portfolio_id
                == data.portfolio_id {
                break;
            }
            k = k + 1;
        }
        if k == qn {
            proof {
                crate::find::lemma_first_where_end(
                    self.quotations@,
                    quo_sel(self.positions@, quote_id, data.portfolio_id),
                );
            }
            return Err(LedgerError::PositionNotFound);
        }
        let quotation_id = self.quotations[k].id;
        proof {
            crate::find::lemma_first_where_step(
                self.quotations@,
                quo_sel(self.positions@, quote_id, data.portfolio_id),
                k as int,
            );
            lemma_quo_sel_at(*self, quote_id, data.portfolio_id, k as int);
        }
        // price and quantity must be positive integers
        let price = match parse_qty(data.price.as_str()) {
            Some(v) => v,
            None => {
                return Err(LedgerError::InvalidQuantity);
            },
        };
        let qty = match parse_qty(data.quantity.as_str()) {
            Some(v) => v,
            None => {
                return Err(LedgerError::InvalidQuantity);
            },
        };
        let buyin = str_eq(data.order_type.as_str(), "buy");
        let row = OrderRow {
            id: order_id,
            quotation_id,
            trading_pair_id: pair_id,
            portfolio_id: data.portfolio_id,
            state: 0,
            buyin,
            price,
            qty,
        };
        proof {
            assert(self.has_portfolio(data.portfolio_id)) by {
                assert((self.portfolios@[pf_idx as int]).id == data.portfolio_id);
            }
        }
        self.orders.push(row);
        proof {
            assert forall|i: int| 0 <= i < self.orders@.len() implies (
            #[trigger] self.orders@[i]).price >= 1 && self.orders@[i].qty >= 1
                && self.has_portfolio(self.orders@[i].portfolio_id) by {
                if i < old(self).orders@.len() {
                    assert(self.orders@[i] == old(self).orders@[i]);
                    assert(old(self).has_portfolio(old(self).orders@[i].portfolio_id));
                    let j = choose|j: int|
                        0 <= j < old(self).portfolios@.len() && (#[trigger] old(
                            self,
                        ).portfolios@[j]).id == old(self).orders@[i].portfolio_id;
                    assert((self.portfolios@[j]).id == self.orders@[i].portfolio_id);
                } else {
                    assert(self.orders@[i] == row);
                    assert((self.portfolios@[pf_idx as int]).id == row.portfolio_id);
                }
            }
        }
        Ok(order_id)
    }

    /// The index of the first portfolio carrying this id.
    fn find_portfolio_by_id(&self, id: i32) -> (r: Option<usize>)
        ensures
            match self.spec_portfolio_by_id(id) {
                Some(pf) => r is Some && r.unwrap() < self.portfolios@.len()
                    && self.portfolios@[r.unwrap() as int] == pf && pf.id == id,
                None => r is None,
            },
    {
        let n = self.portfolios.len();
        let mut i: usize = 0;
        proof {
            crate::find::lemma_first_where_all(self.portfolios@, pf_id_matches(id));
        }
        while i < n
            invariant
                0 <= i <= n,
                n == self.portfolios@.len(),
                first_where(self.portfolios@, pf_id_matches(id)) == first_where(
                    self.portfolios@.skip(i as int),
                    pf_id_matches(id),
                ),
            decreases n - i,
        {
            proof {
                crate::find::lemma_first_where_step(self.portfolios@, pf_id_matches(id), i as int);
                assert(pf_id_matches(id)(self.portfolios@[i as int]) == (self.portfolios@[i as int].id
                    == id));
            }
            if self.portfolios[i].id == id {
                return Some(i);
            }
            i = i + 1;
        }
        proof {
            crate::find::lemma_first_where_end(self.portfolios@, pf_id_matches(id));
        }
        None
    }

    /// List one page of a portfolio's orders, each enriched with the
    /// pair's symbols and the decoded state label.
    ///
    /// Owed to succeed whenever every listed order's trading pair is
    /// registered; `TradingPairNotFound` if and only if one is not.
    #[verifier::loop_isolation(false)]
    pub fn get_order(
        &self,
        reg: &PairRegistry,
        portfolio_id: i32,
        st: Option<i32>,
        len: Option<i32>,
    ) -> (r: Result<Vec<OrderView>, LedgerError>)
        requires
            reg.wf(),
        ensures
            ({
                let sel = self.orders@.filter(ord_in_portfolio(portfolio_id));
                let (lo, hi) = page_bounds(sel.len() as int, st, len);
                match r {
                    Ok(v) => {
                        &&& v@.len() == hi - lo
                        &&& forall|k: int|
                            lo <= k < hi ==> {
                                let o = #[trigger] sel[k];
                                let pair = reg.spec_pair_by_id(o.trading_pair_id);
                                &&& pair is Some
                                &&& v@[k - lo].id == o.id
                                &&& v@[k - lo].buyin == o.buyin
                                &&& v@[k - lo].qty == o.qty
                                &&& v@[k - lo].price == o.price
                                &&& v@[k - lo].state@ == spec_state_label(o.state)
                                &&& v@[k - lo].base@ == reg.spec_currency_by_id(
                                    pair.unwrap().base_currency_id,
                                ).unwrap().symbol@
                                &&& v@[k - lo].quote@ == reg.spec_currency_by_id(
                                    pair.unwrap().quote_currency_id,
                                ).unwrap().symbol@
                            }
                    },
                    Err(e) => {
                        &&& e == LedgerError::TradingPairNotFound
                        &&& exists|k: int|
                            lo <= k < hi && reg.spec_pair_by_id(
                                (#[trigger] sel[k]).trading_pair_id,
                            ) is None
                    },
                }
            }),
    {
        // select this portfolio's orders in table order
        let n = self.orders.len();
        let mut sel: Vec<OrderRow> = Vec::new();
        let mut i: usize = 0;
        while i < n
            invariant
                0 <= i <= n,
                sel@ == self.orders@.subrange(0, i as int).filter(ord_in_portfolio(portfolio_id)),
            decreases n - i,
        {
            proof {
                assert(self.orders@.subrange(0, i as int + 1) =~= self.orders@.subrange(
                    0,
                    i as int,
                ).push(self.orders@[i as int]));
                crate::find::lemma_filter_push(
                    self.orders@.subrange(0, i as int),
                    ord_in_portfolio(portfolio_id),
                    self.orders@[i as int],
                );
                assert(ord_in_portfolio(portfolio_id)(self.orders@[i as int]) == (self.orders@[i as int].portfolio_id
                    == portfolio_id));
            }
            if self.orders[i].portfolio_id == portfolio_id {
                sel.push(self.orders[i]);
            }
            i = i + 1;
        }
        proof {
            assert(self.orders@.subrange(0, n as int) =~= self.orders@);
        }
        // page bounds, negatives treated as zero
        let s0: usize = match st {
            Some(v) => if v < 0 {
                0
            } else {
                v as usize
            },
            None => 0,
        };
        let l0: usize = match len {
            Some(v) => if v < 0 {
                0
            } else {
                v as usize
            },
            None => 10,
        };
        let lo: usize = if s0 < sel.len() {
            s0
        } else {
            sel.len()
        };
        let hi: usize = if s0 + l0 < sel.len() {
            s0 + l0
        } else {
            sel.len()
        };
        let mut out: Vec<OrderView> = Vec::new();
        let mut k: usize = lo;
        while k < hi
            invariant
                lo <= k <= hi,
                out@.len() == k - lo,
                forall|m: int|
                    lo <= m < k ==> {
                        let o = #[trigger] sel@[m];
                        let pair = reg.spec_pair_by_id(o.trading_pair_id);
                        &&& pair is Some
                        &&& out@[m - lo].id == o.id
                        &&& out@[m - lo].buyin == o.buyin
                        &&& out@[m - lo].qty == o.qty
                        &&& out@[m - lo].price == o.price
                        &&& out@[m - lo].state@ == spec_state_label(o.state)
                        &&& out@[m - lo].base@ == reg.spec_currency_by_id(
                            pair.unwrap().base_currency_id,
                        ).unwrap().symbol@
                        &&& out@[m - lo].quote@ == reg.spec_currency_by_id(
                            pair.unwrap().quote_currency_id,
                        ).unwrap().symbol@
                    },
            decreases hi - k,
        {
            let o = sel[k];
            let (base, quote) = match reg.get_trading_pair(o.trading_pair_id) {
                Ok(bq) => bq,
                Err(_) => {
                    return Err(LedgerError::TradingPairNotFound);
                },
            };
            out.push(
                OrderView {
                    id: o.id,
                    buyin: o.buyin,
                    state: state_label(o.state),
                    base,
                    quote,
                    qty: o.qty,
                    price: o.price,
                },
            );
            k = k + 1;
        }
        Ok(out)
    }
}

/// In a well-formed ledger, whether quotation `k` matches an order
/// request is decided by its own position row, the one at the same index.
proof fn lemma_quo_sel_at(l: Ledger, qc: i32, pfid: i32, k: int)
    requires
        l.wf(),
        0 <= k < l.quotations@.len(),
    ensures
        quo_sel(l.positions@, qc, pfid)(l.quotations@[k]) == (l.quotations@[k].quote_currency_id
            == qc && l.positions@[k].portfolio_id == pfid),
{
    let q = l.quotations@[k];
    assert(pos_id_matches(q.position_id)(l.positions@[k]));
    assert forall|m: int| 0 <= m < l.positions@.len() && m != k implies !(pos_id_matches(
        q.position_id,
    )(#[trigger] l.positions@[m])) by {
        if m < k {
            assert(l.positions@[m].id < l.positions@[k].id);
        } else {
            assert(l.positions@[k].id < l.positions@[m].id);
        }
    }
    crate::find::lemma_first_where_at_unique(l.positions@, pos_id_matches(q.position_id), k);
}

} // verus!
