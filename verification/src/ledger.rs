//! The portfolio ledger: the `portfolio -> position -> quotation ->
//! balance` hierarchy and the orders placed against it.
//!
//! A portfolio and its dependent rows are created and destroyed as one
//! unit: an operation either writes its full row set or leaves the ledger
//! untouched, which is what a storage transaction would guarantee and
//! what every contract here states.

use crate::errors::LedgerError;
use crate::find::first_where;
use crate::find::lemma_filter_all;
use crate::find::lemma_filter_none;
use crate::pairs::PairRegistry;
use crate::strutil::spec_split_pair;
use crate::strutil::split_pair;
use vstd::prelude::*;

verus! {

/// One portfolio: a named collection of positions owned by one account.
pub struct PortfolioRow {
    pub id: i32,
    pub name: String,
    pub trader_account_id: i32,
    pub portfolio_type: i32,
}

/// One position: a portfolio's stake in a trading pair.
#[derive(Clone, Copy, Debug, PartialEq, Eq, Structural)]
pub struct PositionRow {
    pub id: i32,
    pub trading_pair_id: i32,
    pub portfolio_id: i32,
}

/// The quote-currency binding of one position.
#[derive(Clone, Copy, Debug, PartialEq, Eq, Structural)]
pub struct QuotationRow {
    pub id: i32,
    pub quote_currency_id: i32,
    pub position_id: i32,
}

/// Per-currency quantity held within a portfolio.
#[derive(Clone, Copy, Debug, PartialEq, Eq, Structural)]
pub struct BalanceRow {
    pub id: i32,
    pub portfolio_id: i32,
    pub currency_id: i32,
    pub quantity: i64,
}

/// One placed order, in minor units; its id comes from the external
/// order-id generator.
#[derive(Clone, Copy, Debug, PartialEq, Eq, Structural)]
pub struct OrderRow {
    pub id: i32,
    pub quotation_id: i32,
    pub trading_pair_id: i32,
    pub portfolio_id: i32,
    pub state: i32,
    pub buyin: bool,
    pub price: i64,
    pub qty: i64,
}

/// A portfolio-creation request: the display name and the requested
/// `"BASE/QUOTE"` position strings.
pub struct AddPortfolioInfo {
    pub name: String,
    pub position: Vec<String>,
}

/// The ids a position string resolves to.
#[derive(Clone, Copy, Debug, PartialEq, Eq, Structural)]
pub struct Resolved {
    pub base_id: i32,
    pub quote_id: i32,
    pub pair_id: i32,
}

/// Does a balance row belong to this portfolio?
pub open spec fn bal_in_portfolio(pid: i32) -> spec_fn(BalanceRow) -> bool {
    |b: BalanceRow| b.portfolio_id == pid
}

/// Does a position row belong to this portfolio?
pub open spec fn pos_in_portfolio(pid: i32) -> spec_fn(PositionRow) -> bool {
    |p: PositionRow| p.portfolio_id == pid
}

/// Does an order row belong to this portfolio?
pub open spec fn ord_in_portfolio(pid: i32) -> spec_fn(OrderRow) -> bool {
    |o: OrderRow| o.portfolio_id == pid
}

/// Does a portfolio row carry this name?
pub open spec fn pf_name_matches(name: Seq<char>) -> spec_fn(PortfolioRow) -> bool {
    |p: PortfolioRow| p.name@ == name
}

/// Does a portfolio row carry this id?
pub open spec fn pf_id_matches(id: i32) -> spec_fn(PortfolioRow) -> bool {
    |p: PortfolioRow| p.id == id
}

/// Does a position row carry this id?
pub open spec fn pos_id_matches(id: i32) -> spec_fn(PositionRow) -> bool {
    |p: PositionRow| p.id == id
}

/// Keep a portfolio row: it is not the one being removed.
pub open spec fn pf_keep(pid: i32) -> spec_fn(PortfolioRow) -> bool {
    |p: PortfolioRow| p.id != pid
}

/// Keep a position row: it belongs to another portfolio.
pub open spec fn pos_keep(pid: i32) -> spec_fn(PositionRow) -> bool {
    |p: PositionRow| p.portfolio_id != pid
}

/// Keep a balance row: it belongs to another portfolio.
pub open spec fn bal_keep(pid: i32) -> spec_fn(BalanceRow) -> bool {
    |b: BalanceRow| b.portfolio_id != pid
}

/// Keep an order row: it belongs to another portfolio.
pub open spec fn ord_keep(pid: i32) -> spec_fn(OrderRow) -> bool {
    |o: OrderRow| o.portfolio_id != pid
}

/// Keep a quotation row: its owning position (looked up in the position
/// table as it stood) belongs to another portfolio.
pub open spec fn quo_keep(ps: Seq<PositionRow>, pid: i32) -> spec_fn(QuotationRow) -> bool {
    |q: QuotationRow| match first_where(ps, pos_id_matches(q.position_id)) {
        Some(pos) => pos.portfolio_id != pid,
        None => true,
    }
}

/// Strict id order between two position rows.
pub open spec fn pos_id_lt() -> spec_fn(PositionRow, PositionRow) -> bool {
    |a: PositionRow, b: PositionRow| a.id < b.id
}

/// Strict id order between two quotation rows.
pub open spec fn quo_id_lt() -> spec_fn(QuotationRow, QuotationRow) -> bool {
    |a: QuotationRow, b: QuotationRow| a.id < b.id
}

/// Strict id order between two balance rows.
pub open spec fn bal_id_lt() -> spec_fn(BalanceRow, BalanceRow) -> bool {
    |a: BalanceRow, b: BalanceRow| a.id < b.id
}

/// Strict id order between two portfolio rows.
pub open spec fn pf_id_lt() -> spec_fn(PortfolioRow, PortfolioRow) -> bool {
    |a: PortfolioRow, b: PortfolioRow| a.id < b.id
}

/// What one position string resolves to against the registry: split at
/// `/`, then resolve both symbols and their combination.
pub open spec fn spec_resolve_pos(reg: PairRegistry, s: Seq<char>) -> Option<Resolved> {
    match spec_split_pair(s) {
        None => None,
        Some((b, q)) => match reg.spec_resolve(b, q) {
            None => None,
            Some(t) => Some(Resolved { base_id: t.0, quote_id: t.1, pair_id: t.2 }),
        },
    }
}

/// Does every requested position string resolve?
pub open spec fn all_positions_resolve(reg: PairRegistry, ps: Seq<String>) -> bool {
    forall|k: int| 0 <= k < ps.len() ==> spec_resolve_pos(reg, (#[trigger] ps[k])@) is Some
}

/// What the requested position strings resolve to, in request order.
pub open spec fn resolved_of(reg: PairRegistry, ps: Seq<String>) -> Seq<Resolved> {
    Seq::new(ps.len(), |k: int| spec_resolve_pos(reg, ps[k]@).unwrap())
}

/// The position rows a creation appends: one per request, with fresh
/// consecutive ids.
pub open spec fn new_positions(rs: Seq<Resolved>, pid: i32, start: i32) -> Seq<PositionRow> {
    Seq::new(
        rs.len(),
        |k: int| PositionRow {
            id: (start + k) as i32,
            trading_pair_id: rs[k].pair_id,
            portfolio_id: pid,
        },
    )
}

/// The quotation rows a creation appends: one per new position, bound to
/// the quote currency of its pair.
pub open spec fn new_quotations(rs: Seq<Resolved>, start: i32, pstart: i32) -> Seq<QuotationRow> {
    Seq::new(
        rs.len(),
        |k: int| QuotationRow {
            id: (start + k) as i32,
            quote_currency_id: rs[k].quote_id,
            position_id: (pstart + k) as i32,
        },
    )
}

/// The balance rows a creation appends: a zero-quantity row for the base
/// and then the quote currency of each request.
pub open spec fn new_balances(rs: Seq<Resolved>, pid: i32, start: i32) -> Seq<BalanceRow> {
    Seq::new(
        2 * rs.len(),
        |k: int| BalanceRow {
            id: (start + k) as i32,
            portfolio_id: pid,
            currency_id: if k % 2 == 0 {
                rs[k / 2].base_id
            } else {
                rs[k / 2].quote_id
            },
            quantity: 0,
        },
    )
}

/// The ledger tables together with the id counters of the four tables
/// whose rows this core itself numbers (order ids come from outside).
pub struct Ledger {
    pub portfolios: Vec<PortfolioRow>,
    pub positions: Vec<PositionRow>,
    pub quotations: Vec<QuotationRow>,
    pub balances: Vec<BalanceRow>,
    pub orders: Vec<OrderRow>,
    pub next_portfolio_id: i32,
    pub next_position_id: i32,
    pub next_quotation_id: i32,
    pub next_balance_id: i32,
}

impl Ledger {
    /// Some portfolio row carries this id.
    pub open spec fn has_portfolio(self, id: i32) -> bool {
        exists|j: int| 0 <= j < self.portfolios@.len() && (#[trigger] self.portfolios@[j]).id == id
    }

    /// Well-formedness of the ledger:
    /// - row ids grow strictly along each table and stay below the
    ///   table's counter;
    /// - positions and quotations are in one-to-one correspondence, row
    ///   `k` of each table linked to row `k` of the other;
    /// - every position, balance and order refers to an existing
    ///   portfolio;
    /// - order prices and quantities are positive.
    pub open spec fn wf(self) -> bool {
        &&& 1 <= self.next_portfolio_id
        &&& 1 <= self.next_position_id
        &&& 1 <= self.next_quotation_id
        &&& 1 <= self.next_balance_id
        &&& forall|i: int, j: int|
            0 <= i < j < self.portfolios@.len() ==> (#[trigger] self.portfolios@[i]).id
                < (#[trigger] self.portfolios@[j]).id
        &&& forall|i: int|
            0 <= i < self.portfolios@.len() ==> (#[trigger] self.portfolios@[i]).id
                < self.next_portfolio_id
        &&& forall|i: int, j: int|
            0 <= i < j < self.positions@.len() ==> (#[trigger] self.positions@[i]).id
                < (#[trigger] self.positions@[j]).id
        &&& forall|i: int|
            0 <= i < self.positions@.len() ==> (#[trigger] self.positions@[i]).id
                < self.next_position_id
        &&& forall|i: int, j: int|
            0 <= i < j < self.quotations@.len() ==> (#[trigger] self.quotations@[i]).id
                < (#[trigger] self.quotations@[j]).id
        &&& forall|i: int|
            0 <= i < self.quotations@.len() ==> (#[trigger] self.quotations@[i]).id
                < self.next_quotation_id
        &&& forall|i: int, j: int|
            0 <= i < j < self.balances@.len() ==> (#[trigger] self.balances@[i]).id
                < (#[trigger] self.balances@[j]).id
        &&& forall|i: int|
            0 <= i < self.balances@.len() ==> (#[trigger] self.balances@[i]).id
                < self.next_balance_id
        &&& self.quotations@.len() == self.positions@.len()
        &&& forall|k: int|
            0 <= k < self.quotations@.len() ==> (#[trigger] self.quotations@[k]).position_id
                == self.positions@[k].id
        &&& forall|i: int|
            0 <= i < self.positions@.len() ==> self.has_portfolio(
                (#[trigger] self.positions@[i]).portfolio_id,
            )
        &&& forall|i: int|
            0 <= i < self.balances@.len() ==> self.has_portfolio(
                (#[trigger] self.balances@[i]).portfolio_id,
            )
        &&& forall|i: int|
            0 <= i < self.orders@.len() ==> (#[trigger] self.orders@[i]).price >= 1
                && self.orders@[i].qty >= 1 && self.has_portfolio(self.orders@[i].portfolio_id)
    }

    /// An empty ledger.
    pub fn new() -> (r: Ledger)
        ensures
            r.wf(),
            r.portfolios@ == Seq::<PortfolioRow>::empty(),
            r.positions@ == Seq::<PositionRow>::empty(),
            r.quotations@ == Seq::<QuotationRow>::empty(),
            r.balances@ == Seq::<BalanceRow>::empty(),
            r.orders@ == Seq::<OrderRow>::empty(),
    {
        Ledger {
            portfolios: Vec::new(),
            positions: Vec::new(),
            quotations: Vec::new(),
            balances: Vec::new(),
            orders: Vec::new(),
            next_portfolio_id: 1,
            next_position_id: 1,
            next_quotation_id: 1,
            next_balance_id: 1,
        }
    }

    /// Is there room in the id space for one portfolio with `n`
    /// positions, quotations and balance pairs?
    pub open spec fn create_fits(self, n: int) -> bool {
        &&& self.next_portfolio_id < i32::MAX
        &&& self.next_position_id + n <= i32::MAX
        &&& self.next_quotation_id + n <= i32::MAX
        &&& self.next_balance_id + 2 * n <= i32::MAX
    }

    /// Create a portfolio with its full dependent row set as one unit.
    ///
    /// On success the ledger gains the portfolio row, and per requested
    /// `"BASE/QUOTE"` string one position, its quotation, and a
    /// zero-quantity balance row for each of the two currencies — and
    /// nothing else.  On any failure the ledger is exactly as it was:
    /// `TradingPairNotFound` if and only if some request string does not
    /// resolve, else `TransactionAborted` if and only if the id space
    /// cannot seat the new rows.
    #[verifier::loop_isolation(false)]
    pub fn add_portfolio(
        &mut self,
        reg: &PairRegistry,
        owner_account_id: i32,
        info: &AddPortfolioInfo,
    ) -> (r: Result<i32, LedgerError>)
        requires
            old(self).wf(),
        ensures
            final(self).wf(),
            match r {
                Ok(pid) => {
                    let rs = resolved_of(*reg, info.position@);
                    let n = info.position@.len() as int;
                    &&& all_positions_resolve(*reg, info.position@)
                    &&& old(self).create_fits(n)
                    &&& pid == old(self).next_portfolio_id
                    &&& final(self).portfolios@.len() == old(self).portfolios@.len() + 1
                    &&& final(self).portfolios@.drop_last() == old(self).portfolios@
                    &&& final(self).portfolios@.last().id == pid
                    &&& final(self).portfolios@.last().name@ == info.name@
                    &&& final(self).portfolios@.last().trader_account_id == owner_account_id
                    &&& final(self).portfolios@.last().portfolio_type == 2
                    &&& final(self).positions@ == old(self).positions@ + new_positions(
                        rs,
                        pid,
                        old(self).next_position_id,
                    )
                    &&& final(self).quotations@ == old(self).quotations@ + new_quotations(
                        rs,
                        old(self).next_quotation_id,
                        old(self).next_position_id,
                    )
                    &&& final(self).balances@ == old(self).balances@ + new_balances(
                        rs,
                        pid,
                        old(self).next_balance_id,
                    )
                    &&& final(self).orders@ == old(self).orders@
                    &&& final(self).next_portfolio_id == old(self).next_portfolio_id + 1
                    &&& final(self).next_position_id == old(self).next_position_id + n
                    &&& final(self).next_quotation_id == old(self).next_quotation_id + n
                    &&& final(self).next_balance_id == old(self).next_balance_id + 2 * n
                    &&& final(self).positions@.filter(pos_in_portfolio(pid)).len() == n
                    &&& final(self).balances@.filter(bal_in_portfolio(pid)).len() == 2 * n
                    &&& forall|j: int|
                        0 <= j < final(self).balances@.len() && (#[trigger] final(self).balances@[j]).portfolio_id
                            == pid ==> final(self).balances@[j].quantity == 0
                },
                Err(e) => {
                    &&& *final(self) == *old(self)
                    &&& e == if !all_positions_resolve(*reg, info.position@) {
                        LedgerError::TradingPairNotFound
                    } else {
                        LedgerError::TransactionAborted
                    }
                    &&& (!all_positions_resolve(*reg, info.position@) || !old(self).create_fits(
                        info.position@.len() as int,
                    ))
                },
            },
    {
        let n = info.position.len();
        let ghost init = *self;
        let mut resolved: Vec<Resolved> = Vec::new();
        let mut k: usize = 0;
        while k < n
            invariant
                *self == init,
                init == *old(self),
                0 <= k <= n,
                n == info.position@.len(),
                resolved@.len() == k,
                forall|j: int|
                    0 <= j < k ==> spec_resolve_pos(*reg, (#[trigger] info.position@[j])@)
                        == Some(resolved@[j]),
            decreases n - k,
        {
            let pos_str = &info.position[k];
            match split_pair(pos_str.as_str()) {
                None => {
                    assert(spec_resolve_pos(*reg, info.position@[k as int]@) is None);
                    return Err(LedgerError::TradingPairNotFound);
                },
                Some((b, q)) => match reg.resolve(b, q) {
                    Err(_) => {
                        assert(spec_resolve_pos(*reg, info.position@[k as int]@) is None);
                        return Err(LedgerError::TradingPairNotFound);
                    },
                    Ok((base_id, quote_id, pair_id)) => {
                        resolved.push(Resolved { base_id, quote_id, pair_id });
                    },
                },
            }
            k = k + 1;
        }
        assert(all_positions_resolve(*reg, info.position@));
        proof {
            assert(resolved@ =~= resolved_of(*reg, info.position@));
        }
        if n > i32::MAX as usize {
            assert(!old(self).create_fits(n as int));
            return Err(LedgerError::TransactionAborted);
        }
        let n64 = n as i64;
        if self.next_portfolio_id == i32::MAX || self.next_position_id as i64 + n64
            > i32::MAX as i64 || self.next_quotation_id as i64 + n64 > i32::MAX as i64
            || self.next_balance_id as i64 + 2 * n64 > i32::MAX as i64 {
            return Err(LedgerError::TransactionAborted);
        }
        let ghost rs = resolved_of(*reg, info.position@);
        let pid = self.next_portfolio_id;
        let ghost p0 = self.next_position_id;
        let ghost q0 = self.next_quotation_id;
        let ghost b0 = self.next_balance_id;
        self.portfolios.push(
            PortfolioRow {
                id: pid,
                name: info.name.clone(),
                trader_account_id: owner_account_id,
                portfolio_type: 2,
            },
        );
        self.next_portfolio_id = pid + 1;
        let ghost pre = *self;
        let mut k: usize = 0;
        while k < n
            invariant
                0 <= k <= n,
                n <= i32::MAX,
                n == info.position@.len(),
                n == rs.len(),
                resolved@ == rs,
                self.portfolios@ == pre.portfolios@,
                self.orders@ == pre.orders@,
                self.next_portfolio_id == pre.next_portfolio_id,
                self.positions@ == pre.positions@ + new_positions(rs, pid, p0).subrange(
                    0,
                    k as int,
                ),
                self.quotations@ == pre.quotations@ + new_quotations(rs, q0, p0).subrange(
                    0,
                    k as int,
                ),
                self.balances@ == pre.balances@ + new_balances(rs, pid, b0).subrange(
                    0,
                    2 * k as int,
                ),
                self.next_position_id == p0 + k,
                self.next_quotation_id == q0 + k,
                self.next_balance_id == b0 + 2 * (k as int),
                p0 + n <= i32::MAX,
                q0 + n <= i32::MAX,
                b0 + 2 * (n as int) <= i32::MAX,
            decreases n - k,
        {
            let r = resolved[k];
            let bal_id = self.next_balance_id;
            self.balances.push(
                BalanceRow { id: bal_id, portfolio_id: pid, currency_id: r.base_id, quantity: 0 },
            );
            self.balances.push(
                BalanceRow {
                    id: bal_id + 1,
                    portfolio_id: pid,
                    currency_id: r.quote_id,
                    quantity: 0,
                },
            );
            self.next_balance_id = bal_id + 2;
            let pos_id = self.next_position_id;
            self.positions.push(
                PositionRow { id: pos_id, trading_pair_id: r.pair_id, portfolio_id: pid },
            );
            self.next_position_id = pos_id + 1;
            let quo_id = self.next_quotation_id;
            self.quotations.push(
                QuotationRow { id: quo_id, quote_currency_id: r.quote_id, position_id: pos_id },
            );
            self.next_quotation_id = quo_id + 1;
            proof {
                assert(new_positions(rs, pid, p0).subrange(0, k as int + 1) =~= new_positions(
                    rs,
                    pid,
                    p0,
                ).subrange(0, k as int).push(new_positions(rs, pid, p0)[k as int]));
                assert(new_quotations(rs, q0, p0).subrange(0, k as int + 1) =~= new_quotations(
                    rs,
                    q0,
                    p0,
                ).subrange(0, k as int).push(new_quotations(rs, q0, p0)[k as int]));
                assert(new_balances(rs, pid, b0).subrange(0, 2 * (k as int) + 2) =~= new_balances(
                    rs,
                    pid,
                    b0,
                ).subrange(0, 2 * (k as int)).push(new_balances(rs, pid, b0)[2 * (k as int)]).push(
                    new_balances(rs, pid, b0)[2 * (k as int) + 1],
                ));
                assert((2 * (k as int)) % 2 == 0);
                assert((2 * (k as int) + 1) % 2 == 1);
                assert((2 * (k as int)) / 2 == k as int);
                assert((2 * (k as int) + 1) / 2 == k as int);
            }
            k = k + 1;
        }
        proof {
            assert(self.portfolios@.drop_last() =~= old(self).portfolios@);
            assert(new_positions(rs, pid, p0).subrange(0, n as int) =~= new_positions(
                rs,
                pid,
                p0,
            ));
            assert(new_quotations(rs, q0, p0).subrange(0, n as int) =~= new_quotations(
                rs,
                q0,
                p0,
            ));
            assert(new_balances(rs, pid, b0).subrange(0, 2 * (n as int)) =~= new_balances(
                rs,
                pid,
                b0,
            ));
            lemma_add_portfolio_wf(*old(self), *self, rs, pid);
        }
        Ok(pid)
    }
}

impl Clone for PortfolioRow {
    /// A field-for-field copy of the row.
    fn clone(&self) -> (r: Self)
        ensures
            r == *self,
    {
        PortfolioRow {
            id: self.id,
            name: self.name.clone(),
            trader_account_id: self.trader_account_id,
            portfolio_type: self.portfolio_type,
        }
    }
}

impl Ledger {
    /// The first portfolio row carrying this name.
    pub open spec fn spec_portfolio_by_name(self, name: Seq<char>) -> Option<PortfolioRow> {
        first_where(self.portfolios@, pf_name_matches(name))
    }

    /// The first portfolio row carrying this id.
    pub open spec fn spec_portfolio_by_id(self, id: i32) -> Option<PortfolioRow> {
        first_where(self.portfolios@, pf_id_matches(id))
    }

    /// Remove the portfolio registered under `name` together with every
    /// dependent row — orders, balances, quotations, positions — as one
    /// unit: children and parent leave together, and rows of other
    /// portfolios stay exactly as they were.  `PortfolioNotFound` if and
    /// only if no portfolio carries the name, and then nothing changes.
    #[verifier::loop_isolation(false)]
    pub fn remove_portfolio(&mut self, name: &str) -> (r: Result<(), LedgerError>)
        requires
            old(self).wf(),
        ensures
            final(self).wf(),
            match old(self).spec_portfolio_by_name(name@) {
                None => r == Err::<(), LedgerError>(LedgerError::PortfolioNotFound) && *final(self)
                    == *old(self),
                Some(pf) => {
                    &&& r == Ok::<(), LedgerError>(())
                    &&& final(self).portfolios@ == old(self).portfolios@.filter(pf_keep(pf.id))
                    &&& final(self).positions@ == old(self).positions@.filter(pos_keep(pf.id))
                    &&& final(self).quotations@ == old(self).quotations@.filter(
                        quo_keep(old(self).positions@, pf.id),
                    )
                    &&& final(self).balances@ == old(self).balances@.filter(bal_keep(pf.id))
                    &&& final(self).orders@ == old(self).orders@.filter(ord_keep(pf.id))
                    &&& final(self).next_portfolio_id == old(self).next_portfolio_id
                    &&& final(self).next_position_id == old(self).next_position_id
                    &&& final(self).next_quotation_id == old(self).next_quotation_id
                    &&& final(self).next_balance_id == old(self).next_balance_id
                    &&& forall|i: int|
                        0 <= i < final(self).portfolios@.len() ==> (#[trigger] final(self).portfolios@[i]).id
                            != pf.id
                    &&& forall|i: int|
                        0 <= i < final(self).positions@.len() ==> (#[trigger] final(self).positions@[i]).portfolio_id
                            != pf.id
                    &&& forall|i: int|
                        0 <= i < final(self).balances@.len() ==> (#[trigger] final(self).balances@[i]).portfolio_id
                            != pf.id
                    &&& forall|i: int|
                        0 <= i < final(self).orders@.len() ==> (#[trigger] final(self).orders@[i]).portfolio_id
                            != pf.id
                },
            },
    {
        // resolve the portfolio id from the name
        let n = self.portfolios.len();
        let mut i: usize = 0;
        proof {
            crate::find::lemma_first_where_all(self.portfolios@, pf_name_matches(name@));
        }
        while i < n
            invariant
                0 <= i <= n,
                first_where(self.portfolios@, pf_name_matches(name@)) == first_where(
                    self.portfolios@.skip(i as int),
                    pf_name_matches(name@),
                ),
            decreases n - i,
        {
            proof {
                crate::find::lemma_first_where_step(self.portfolios@, pf_name_matches(name@), i as int);
                assert(pf_name_matches(name@)(self.portfolios@[i as int]) == (self.portfolios@[i as int].name@
                    == name@));
            }
            if crate::strutil::str_eq(self.portfolios[i].name.as_str(), name) {
                break;
            }
            i = i + 1;
        }
        if i == n {
            proof {
                crate::find::lemma_first_where_end(self.portfolios@, pf_name_matches(name@));
            }
            return Err(LedgerError::PortfolioNotFound);
        }
        let pid = self.portfolios[i].id;
        proof {
            crate::find::lemma_first_where_step(self.portfolios@, pf_name_matches(name@), i as int);
            assert(pf_name_matches(name@)(self.portfolios@[i as int]));
            assert(old(self).spec_portfolio_by_name(name@) == Some(self.portfolios@[i as int]));
        }
        let ghost pre = *self;
        // rebuild the portfolio table without the removed row
        let pf_len = self.portfolios.len();
        let mut new_pf: Vec<PortfolioRow> = Vec::new();
        let mut j: usize = 0;
        while j < pf_len
            invariant
                0 <= j <= pf_len,
                *self == pre,
                new_pf@ == pre.portfolios@.subrange(0, j as int).filter(pf_keep(pid)),
            decreases pf_len - j,
        {
            proof {
                assert(pre.portfolios@.subrange(0, j as int + 1) =~= pre.portfolios@.subrange(
                    0,
                    j as int,
                ).push(pre.portfolios@[j as int]));
                crate::find::lemma_filter_push(
                    pre.portfolios@.subrange(0, j as int),
                    pf_keep(pid),
                    pre.portfolios@[j as int],
                );
                assert(pf_keep(pid)(pre.portfolios@[j as int]) == (pre.portfolios@[j as int].id
                    != pid));
            }
            if self.portfolios[j].id != pid {
                new_pf.push(self.portfolios[j].clone());
            }
            j = j + 1;
        }
        // rebuild positions and quotations in lockstep
        let ps_len = self.positions.len();
        let mut new_ps: Vec<PositionRow> = Vec::new();
        let mut new_qs: Vec<QuotationRow> = Vec::new();
        let mut k: usize = 0;
        while k < ps_len
            invariant
                0 <= k <= ps_len,
                *self == pre,
                new_ps@ == pre.positions@.subrange(0, k as int).filter(pos_keep(pid)),
                new_qs@ == pre.quotations@.subrange(0, k as int).filter(
                    quo_keep(pre.positions@, pid),
                ),
            decreases ps_len - k,
        {
            let ghost ps = pre.positions@;
            let ghost q = pre.quotations@[k as int];
            proof {
                assert(pre.positions@.subrange(0, k as int + 1) =~= pre.positions@.subrange(
                    0,
                    k as int,
                ).push(pre.positions@[k as int]));
                assert(pre.quotations@.subrange(0, k as int + 1) =~= pre.quotations@.subrange(
                    0,
                    k as int,
                ).push(q));
                crate::find::lemma_filter_push(
                    pre.positions@.subrange(0, k as int),
                    pos_keep(pid),
                    pre.positions@[k as int],
                );
                crate::find::lemma_filter_push(
                    pre.quotations@.subrange(0, k as int),
                    quo_keep(pre.positions@, pid),
                    q,
                );
                assert(pos_keep(pid)(pre.positions@[k as int]) == (pre.positions@[k as int].portfolio_id
                    != pid));
                lemma_quo_keep_at(pre, pid, k as int);
            }
            if self.positions[k].portfolio_id != pid {
                new_ps.push(self.positions[k]);
                new_qs.push(self.quotations[k]);
            }
            k = k + 1;
        }
        // rebuild balances
        let b_len = self.balances.len();
        let mut new_bs: Vec<BalanceRow> = Vec::new();
        let mut m: usize = 0;
        while m < b_len
            invariant
                0 <= m <= b_len,
                *self == pre,
                new_bs@ == pre.balances@.subrange(0, m as int).filter(bal_keep(pid)),
            decreases b_len - m,
        {
            proof {
                assert(pre.balances@.subrange(0, m as int + 1) =~= pre.balances@.subrange(
                    0,
                    m as int,
                ).push(pre.balances@[m as int]));
                crate::find::lemma_filter_push(
                    pre.balances@.subrange(0, m as int),
                    bal_keep(pid),
                    pre.balances@[m as int],
                );
                assert(bal_keep(pid)(pre.balances@[m as int]) == (pre.balances@[m as int].portfolio_id
                    != pid));
            }
            if self.balances[m].portfolio_id != pid {
                new_bs.push(self.balances[m]);
            }
            m = m + 1;
        }
        // rebuild orders
        let o_len = self.orders.len();
        let mut new_os: Vec<OrderRow> = Vec::new();
        let mut w: usize = 0;
        while w < o_len
            invariant
                0 <= w <= o_len,
                *self == pre,
                new_os@ == pre.orders@.subrange(0, w as int).filter(ord_keep(pid)),
            decreases o_len - w,
        {
            proof {
                assert(pre.orders@.subrange(0, w as int + 1) =~= pre.orders@.subrange(
                    0,
                    w as int,
                ).push(pre.orders@[w as int]));
                crate::find::lemma_filter_push(
                    pre.orders@.subrange(0, w as int),
                    ord_keep(pid),
                    pre.orders@[w as int],
                );
                assert(ord_keep(pid)(pre.orders@[w as int]) == (pre.orders@[w as int].portfolio_id
                    != pid));
            }
            if self.orders[w].portfolio_id != pid {
                new_os.push(self.orders[w]);
            }
            w = w + 1;
        }
        self.portfolios = new_pf;
        self.positions = new_ps;
        self.quotations = new_qs;
        self.balances = new_bs;
        self.orders = new_os;
        proof {
            assert(pre.portfolios@.subrange(0, pre.portfolios@.len() as int) =~= pre.portfolios@);
            assert(pre.positions@.subrange(0, pre.positions@.len() as int) =~= pre.positions@);
            assert(pre.quotations@.subrange(0, pre.quotations@.len() as int) =~= pre.quotations@);
            assert(pre.balances@.subrange(0, pre.balances@.len() as int) =~= pre.balances@);
            assert(pre.orders@.subrange(0, pre.orders@.len() as int) =~= pre.orders@);
            lemma_remove_portfolio_wf(pre, *self, pid);
        }
        Ok(())
    }
}

/// In a well-formed ledger, whether quotation `k` survives a removal is
/// decided by its own position row, the one at the same index.
proof fn lemma_quo_keep_at(l: Ledger, pid: i32, k: int)
    requires
        l.wf(),
        0 <= k < l.quotations@.len(),
    ensures
        quo_keep(l.positions@, pid)(l.quotations@[k]) == (l.positions@[k].portfolio_id != pid),
{
    let q = l.quotations@[k];
    assert(pos_id_matches(q.position_id)(l.positions@[k]));
    assert forall|m: int| 0 <= m < l.positions@.len() && m != k implies !(pos_id_matches(
        q.position_id,
    )(#[trigger] l.positions@[m])) by {
        if m < k {
            assert(l.positions@[m].id < l.positions@[k].id);
        } else {
            assert(l.positions@[k].id < l.positions@[m].id);
        }
    }
    crate::find::lemma_first_where_at_unique(l.positions@, pos_id_matches(q.position_id), k);
}

/// After a removal filtered every table, the ledger is well-formed again.
proof fn lemma_remove_portfolio_wf(pre: Ledger, post: Ledger, pid: i32)
    requires
        pre.wf(),
        post.portfolios@ == pre.portfolios@.filter(pf_keep(pid)),
        post.positions@ == pre.positions@.filter(pos_keep(pid)),
        post.quotations@ == pre.quotations@.filter(quo_keep(pre.positions@, pid)),
        post.balances@ == pre.balances@.filter(bal_keep(pid)),
        post.orders@ == pre.orders@.filter(ord_keep(pid)),
        post.next_portfolio_id == pre.next_portfolio_id,
        post.next_position_id == pre.next_position_id,
        post.next_quotation_id == pre.next_quotation_id,
        post.next_balance_id == pre.next_balance_id,
    ensures
        post.wf(),
        forall|i: int|
            0 <= i < post.portfolios@.len() ==> (#[trigger] post.portfolios@[i]).id != pid,
        forall|i: int|
            0 <= i < post.positions@.len() ==> (#[trigger] post.positions@[i]).portfolio_id != pid,
        forall|i: int|
            0 <= i < post.balances@.len() ==> (#[trigger] post.balances@[i]).portfolio_id != pid,
        forall|i: int|
            0 <= i < post.orders@.len() ==> (#[trigger] post.orders@[i]).portfolio_id != pid,
{
    let pfs = pre.portfolios@;
    let pss = pre.positions@;
    let qss = pre.quotations@;
    let bss = pre.balances@;
    let oss = pre.orders@;
    // every kept row satisfies its keep predicate
    pfs.filter_lemma(pf_keep(pid));
    pss.filter_lemma(pos_keep(pid));
    bss.filter_lemma(bal_keep(pid));
    oss.filter_lemma(ord_keep(pid));
    assert forall|i: int| 0 <= i < post.portfolios@.len() implies (
    #[trigger] post.portfolios@[i]).id != pid by {
        assert(pf_keep(pid)(post.portfolios@[i]));
    }
    assert forall|i: int| 0 <= i < post.positions@.len() implies (
    #[trigger] post.positions@[i]).portfolio_id != pid by {
        assert(pos_keep(pid)(post.positions@[i]));
    }
    assert forall|i: int| 0 <= i < post.balances@.len() implies (
    #[trigger] post.balances@[i]).portfolio_id != pid by {
        assert(bal_keep(pid)(post.balances@[i]));
    }
    assert forall|i: int| 0 <= i < post.orders@.len() implies (
    #[trigger] post.orders@[i]).portfolio_id != pid by {
        assert(ord_keep(pid)(post.orders@[i]));
    }
    // id order and id bounds survive filtering
    crate::find::lemma_filter_preserves_pairwise(pfs, pf_keep(pid), pf_id_lt());
    crate::find::lemma_filter_preserves_pairwise(pss, pos_keep(pid), pos_id_lt());
    crate::find::lemma_filter_preserves_pairwise(qss, quo_keep(pss, pid), quo_id_lt());
    crate::find::lemma_filter_preserves_pairwise(bss, bal_keep(pid), bal_id_lt());
    assert forall|i: int, j: int| 0 <= i < j < post.portfolios@.len() implies (
    #[trigger] post.portfolios@[i]).id < (#[trigger] post.portfolios@[j]).id by {
        assert(pf_id_lt()(post.portfolios@[i], post.portfolios@[j]));
    }
    assert forall|i: int, j: int| 0 <= i < j < post.positions@.len() implies (
    #[trigger] post.positions@[i]).id < (#[trigger] post.positions@[j]).id by {
        assert(pos_id_lt()(post.positions@[i], post.positions@[j]));
    }
    assert forall|i: int, j: int| 0 <= i < j < post.quotations@.len() implies (
    #[trigger] post.quotations@[i]).id < (#[trigger] post.quotations@[j]).id by {
        assert(quo_id_lt()(post.quotations@[i], post.quotations@[j]));
    }
    assert forall|i: int, j: int| 0 <= i < j < post.balances@.len() implies (
    #[trigger] post.balances@[i]).id < (#[trigger] post.balances@[j]).id by {
        assert(bal_id_lt()(post.balances@[i], post.balances@[j]));
    }
    crate::find::lemma_filter_elements(pfs, pf_keep(pid));
    crate::find::lemma_filter_elements(pss, pos_keep(pid));
    crate::find::lemma_filter_elements(qss, quo_keep(pss, pid));
    crate::find::lemma_filter_elements(bss, bal_keep(pid));
    crate::find::lemma_filter_elements(oss, ord_keep(pid));
    assert forall|i: int| 0 <= i < post.portfolios@.len() implies (
    #[trigger] post.portfolios@[i]).id < post.next_portfolio_id by {
        let m = choose|m: int| 0 <= m < pfs.len() && pfs.index(m) == post.portfolios@[i];
    }
    assert forall|i: int| 0 <= i < post.positions@.len() implies (
    #[trigger] post.positions@[i]).id < post.next_position_id by {
        let m = choose|m: int| 0 <= m < pss.len() && pss.index(m) == post.positions@[i];
    }
    assert forall|i: int| 0 <= i < post.quotations@.len() implies (
    #[trigger] post.quotations@[i]).id < post.next_quotation_id by {
        let m = choose|m: int| 0 <= m < qss.len() && qss.index(m) == post.quotations@[i];
    }
    assert forall|i: int| 0 <= i < post.balances@.len() implies (
    #[trigger] post.balances@[i]).id < post.next_balance_id by {
        let m = choose|m: int| 0 <= m < bss.len() && bss.index(m) == post.balances@[i];
    }
    // positions and quotations stay in lockstep
    assert forall|k: int| 0 <= k < pss.len() implies pos_keep(pid)(#[trigger] pss[k]) == quo_keep(
        pss,
        pid,
    )(#[trigger] qss[k]) by {
        lemma_quo_keep_at(pre, pid, k);
    }
    crate::find::lemma_filter_parallel(pss, qss, pos_keep(pid), quo_keep(pss, pid));
    assert forall|k: int| 0 <= k < post.quotations@.len() implies (
    #[trigger] post.quotations@[k]).position_id == post.positions@[k].id by {
        let m = choose|m: int|
            0 <= m < pss.len() && #[trigger] post.positions@[k] == pss[m] && post.quotations@[k]
                == qss[m];
        assert(qss[m].position_id == pss[m].id);
    }
    // every kept child still has its portfolio
    assert forall|i: int| 0 <= i < post.positions@.len() implies post.has_portfolio(
        (#[trigger] post.positions@[i]).portfolio_id,
    ) by {
        let m = choose|m: int| 0 <= m < pss.len() && pss.index(m) == post.positions@[i];
        assert(pre.has_portfolio(pss[m].portfolio_id));
        lemma_has_portfolio_after_remove(pre, post, pid, post.positions@[i].portfolio_id);
    }
    assert forall|i: int| 0 <= i < post.balances@.len() implies post.has_portfolio(
        (#[trigger] post.balances@[i]).portfolio_id,
    ) by {
        let m = choose|m: int| 0 <= m < bss.len() && bss.index(m) == post.balances@[i];
        assert(pre.has_portfolio(bss[m].portfolio_id));
        lemma_has_portfolio_after_remove(pre, post, pid, post.balances@[i].portfolio_id);
    }
    assert forall|i: int| 0 <= i < post.orders@.len() implies (#[trigger] post.orders@[i]).price
        >= 1 && post.orders@[i].qty >= 1 && post.has_portfolio(post.orders@[i].portfolio_id) by {
        let m = choose|m: int| 0 <= m < oss.len() && oss.index(m) == post.orders@[i];
        assert(pre.orders@[m].price >= 1);
        assert(pre.has_portfolio(oss[m].portfolio_id));
        lemma_has_portfolio_after_remove(pre, post, pid, post.orders@[i].portfolio_id);
    }
}

/// A creation never disturbs another portfolio: the dependent rows of
/// any other portfolio id are, after the new rows were appended, exactly
/// the rows it had.  Creations hold the ledger exclusively, one after
/// the other, so two creations under one name yield two portfolios, each
/// with its own complete row set — never a shared, inconsistent one.
pub proof fn lemma_create_disturbs_nothing(
    pre: Ledger,
    post: Ledger,
    rs: Seq<Resolved>,
    pid: i32,
    other: i32,
)
    requires
        post.positions@ == pre.positions@ + new_positions(rs, pid, pre.next_position_id),
        post.balances@ == pre.balances@ + new_balances(rs, pid, pre.next_balance_id),
        post.orders@ == pre.orders@,
        other != pid,
    ensures
        post.positions@.filter(pos_in_portfolio(other)) == pre.positions@.filter(
            pos_in_portfolio(other),
        ),
        post.balances@.filter(bal_in_portfolio(other)) == pre.balances@.filter(
            bal_in_portfolio(other),
        ),
        post.orders@.filter(ord_in_portfolio(other)) == pre.orders@.filter(
            ord_in_portfolio(other),
        ),
{
    let nps = new_positions(rs, pid, pre.next_position_id);
    let nbs = new_balances(rs, pid, pre.next_balance_id);
    assert forall|i: int| 0 <= i < nps.len() implies !(pos_in_portfolio(other)(
        #[trigger] nps[i],
    )) by {}
    assert forall|i: int| 0 <= i < nbs.len() implies !(bal_in_portfolio(other)(
        #[trigger] nbs[i],
    )) by {}
    lemma_filter_none(nps, pos_in_portfolio(other));
    lemma_filter_none(nbs, bal_in_portfolio(other));
    Seq::filter_distributes_over_add(pre.positions@, nps, pos_in_portfolio(other));
    Seq::filter_distributes_over_add(pre.balances@, nbs, bal_in_portfolio(other));
    assert(post.positions@.filter(pos_in_portfolio(other)) =~= pre.positions@.filter(
        pos_in_portfolio(other),
    ));
    assert(post.balances@.filter(bal_in_portfolio(other)) =~= pre.balances@.filter(
        bal_in_portfolio(other),
    ));
}

/// A removal never leaves the removed name listed, provided the name was
/// unambiguous: if at most one portfolio carried the name, then after the
/// removal filtered the table, no remaining portfolio carries it.  (Names
/// are not declared unique, so a duplicated name is left out here: of two
/// portfolios sharing a name, a removal by name takes only the first.)
pub proof fn lemma_removed_name_not_listed(pre: Ledger, post: Ledger, name: Seq<char>)
    requires
        pre.spec_portfolio_by_name(name) is Some,
        post.portfolios@ == pre.portfolios@.filter(
            pf_keep(pre.spec_portfolio_by_name(name).unwrap().id),
        ),
        forall|i: int, j: int|
            0 <= i < j < pre.portfolios@.len() ==> !((#[trigger] pre.portfolios@[i]).name@ == name
                && (#[trigger] pre.portfolios@[j]).name@ == name),
    ensures
        forall|i: int|
            0 <= i < post.portfolios@.len() ==> (#[trigger] post.portfolios@[i]).name@ != name,
{
    let pf = pre.spec_portfolio_by_name(name).unwrap();
    crate::find::lemma_first_where_found(pre.portfolios@, pf_name_matches(name));
    assert(pf_name_matches(name)(pf));
    let m = choose|m: int| 0 <= m < pre.portfolios@.len() && pre.portfolios@.index(m) == pf;
    crate::find::lemma_filter_elements(pre.portfolios@, pf_keep(pf.id));
    pre.portfolios@.filter_lemma(pf_keep(pf.id));
    assert forall|i: int| 0 <= i < post.portfolios@.len() implies (
    #[trigger] post.portfolios@[i]).name@ != name by {
        let w = choose|w: int|
            0 <= w < pre.portfolios@.len() && pre.portfolios@.index(w) == post.portfolios@[i];
        if post.portfolios@[i].name@ == name {
            assert(pf_keep(pf.id)(post.portfolios@[i]));
            if w == m {
                assert(post.portfolios@[i].id == pf.id);
            } else if w < m {
                assert(pre.portfolios@[w].name@ == name && pre.portfolios@[m].name@ == name);
            } else {
                assert(pre.portfolios@[m].name@ == name && pre.portfolios@[w].name@ == name);
            }
        }
    }
}

/// A portfolio other than the removed one can still be found after the
/// removal filtered the table.
proof fn lemma_has_portfolio_after_remove(pre: Ledger, post: Ledger, pid: i32, id: i32)
    requires
        post.portfolios@ == pre.portfolios@.filter(pf_keep(pid)),
        pre.has_portfolio(id),
        id != pid,
    ensures
        post.has_portfolio(id),
{
    let j = choose|j: int|
        0 <= j < pre.portfolios@.len() && (#[trigger] pre.portfolios@[j]).id == id;
    assert(pf_keep(pid)(pre.portfolios@[j]));
    pre.portfolios@.filter_lemma(pf_keep(pid));
    assert(post.portfolios@.contains(pre.portfolios@[j]));
    let m = choose|m: int|
        0 <= m < post.portfolios@.len() && post.portfolios@.index(m) == pre.portfolios@[j];
    assert((post.portfolios@[m]).id == id);
}

/// After a creation appended its rows, the ledger is well-formed again
/// and the new portfolio's row counts are exact.
proof fn lemma_add_portfolio_wf(pre: Ledger, post: Ledger, rs: Seq<Resolved>, pid: i32)
    requires
        pre.wf(),
        pid == pre.next_portfolio_id,
        rs.len() <= i32::MAX,
        pre.create_fits(rs.len() as int),
        post.portfolios@.len() == pre.portfolios@.len() + 1,
        post.portfolios@.drop_last() == pre.portfolios@,
        post.portfolios@.last().id == pid,
        post.positions@ == pre.positions@ + new_positions(rs, pid, pre.next_position_id),
        post.quotations@ == pre.quotations@ + new_quotations(
            rs,
            pre.next_quotation_id,
            pre.next_position_id,
        ),
        post.balances@ == pre.balances@ + new_balances(rs, pid, pre.next_balance_id),
        post.orders@ == pre.orders@,
        post.next_portfolio_id == pre.next_portfolio_id + 1,
        post.next_position_id == pre.next_position_id + rs.len(),
        post.next_quotation_id == pre.next_quotation_id + rs.len(),
        post.next_balance_id == pre.next_balance_id + 2 * rs.len(),
    ensures
        post.wf(),
        post.positions@.filter(pos_in_portfolio(pid)).len() == rs.len(),
        post.balances@.filter(bal_in_portfolio(pid)).len() == 2 * rs.len(),
        forall|j: int|
            0 <= j < post.balances@.len() && (#[trigger] post.balances@[j]).portfolio_id == pid
                ==> post.balances@[j].quantity == 0,
{
    let n = rs.len() as int;
    let p0 = pre.next_position_id;
    let q0 = pre.next_quotation_id;
    let b0 = pre.next_balance_id;
    let nps = new_positions(rs, pid, p0);
    let nqs = new_quotations(rs, q0, p0);
    let nbs = new_balances(rs, pid, b0);
    // the old tables never mention the fresh portfolio id
    assert forall|i: int| 0 <= i < pre.portfolios@.len() implies #[trigger] post.portfolios@[i]
        == pre.portfolios@[i] by {
        assert(post.portfolios@.drop_last()[i] == post.portfolios@[i]);
    }
    assert forall|id: i32| pre.has_portfolio(id) implies post.has_portfolio(id) && id < pid by {
        let j = choose|j: int|
            0 <= j < pre.portfolios@.len() && (#[trigger] pre.portfolios@[j]).id == id;
        assert((post.portfolios@[j]).id == id);
    }
    assert(post.has_portfolio(pid)) by {
        assert((post.portfolios@[post.portfolios@.len() - 1]).id == pid);
    }
    // well-formedness clause by clause
    assert forall|i: int, j: int| 0 <= i < j < post.portfolios@.len() implies (
    #[trigger] post.portfolios@[i]).id < (#[trigger] post.portfolios@[j]).id by {
        if j < pre.portfolios@.len() {
        } else {
            assert(post.portfolios@[j].id == pid);
            assert(post.portfolios@[i] == pre.portfolios@[i]);
        }
    }
    assert forall|i: int, j: int| 0 <= i < j < post.positions@.len() implies (
    #[trigger] post.positions@[i]).id < (#[trigger] post.positions@[j]).id by {
        if i >= pre.positions@.len() {
            assert(post.positions@[i] == nps[i - pre.positions@.len()]);
            assert(post.positions@[j] == nps[j - pre.positions@.len()]);
        } else if j >= pre.positions@.len() {
            assert(post.positions@[j] == nps[j - pre.positions@.len()]);
        }
    }
    assert forall|i: int, j: int| 0 <= i < j < post.quotations@.len() implies (
    #[trigger] post.quotations@[i]).id < (#[trigger] post.quotations@[j]).id by {
        if i >= pre.quotations@.len() {
            assert(post.quotations@[i] == nqs[i - pre.quotations@.len()]);
            assert(post.quotations@[j] == nqs[j - pre.quotations@.len()]);
        } else if j >= pre.quotations@.len() {
            assert(post.quotations@[j] == nqs[j - pre.quotations@.len()]);
        }
    }
    assert forall|i: int, j: int| 0 <= i < j < post.balances@.len() implies (
    #[trigger] post.balances@[i]).id < (#[trigger] post.balances@[j]).id by {
        if i >= pre.balances@.len() {
            assert(post.balances@[i] == nbs[i - pre.balances@.len()]);
            assert(post.balances@[j] == nbs[j - pre.balances@.len()]);
        } else if j >= pre.balances@.len() {
            assert(post.balances@[j] == nbs[j - pre.balances@.len()]);
        }
    }
    assert forall|k: int| 0 <= k < post.quotations@.len() implies (
    #[trigger] post.quotations@[k]).position_id == post.positions@[k].id by {
        if k >= pre.quotations@.len() {
            assert(post.quotations@[k] == nqs[k - pre.quotations@.len()]);
            assert(post.positions@[k] == nps[k - pre.positions@.len()]);
        }
    }
    assert forall|i: int| 0 <= i < post.positions@.len() implies post.has_portfolio(
        (#[trigger] post.positions@[i]).portfolio_id,
    ) by {
        if i < pre.positions@.len() {
            assert(pre.has_portfolio(pre.positions@[i].portfolio_id));
        } else {
            assert(post.positions@[i] == nps[i - pre.positions@.len()]);
        }
    }
    assert forall|i: int| 0 <= i < post.balances@.len() implies post.has_portfolio(
        (#[trigger] post.balances@[i]).portfolio_id,
    ) by {
        if i < pre.balances@.len() {
            assert(pre.has_portfolio(pre.balances@[i].portfolio_id));
        } else {
            assert(post.balances@[i] == nbs[i - pre.balances@.len()]);
        }
    }
    assert forall|i: int| 0 <= i < post.orders@.len() implies (#[trigger] post.orders@[i]).price
        >= 1 && post.orders@[i].qty >= 1 && post.has_portfolio(post.orders@[i].portfolio_id) by {
        assert(pre.has_portfolio(pre.orders@[i].portfolio_id));
    }
    // exact row counts for the new portfolio id
    assert forall|i: int| 0 <= i < pre.positions@.len() implies !(pos_in_portfolio(pid)(
        #[trigger] pre.positions@[i],
    )) by {
        assert(pre.has_portfolio(pre.positions@[i].portfolio_id));
    }
    assert forall|i: int| 0 <= i < pre.balances@.len() implies !(bal_in_portfolio(pid)(
        #[trigger] pre.balances@[i],
    )) by {
        assert(pre.has_portfolio(pre.balances@[i].portfolio_id));
    }
    lemma_filter_none(pre.positions@, pos_in_portfolio(pid));
    lemma_filter_none(pre.balances@, bal_in_portfolio(pid));
    assert forall|i: int| 0 <= i < nps.len() implies pos_in_portfolio(pid)(
        #[trigger] nps[i],
    ) by {}
    assert forall|i: int| 0 <= i < nbs.len() implies bal_in_portfolio(pid)(
        #[trigger] nbs[i],
    ) by {}
    lemma_filter_all(nps, pos_in_portfolio(pid));
    lemma_filter_all(nbs, bal_in_portfolio(pid));
    Seq::filter_distributes_over_add(pre.positions@, nps, pos_in_portfolio(pid));
    Seq::filter_distributes_over_add(pre.balances@, nbs, bal_in_portfolio(pid));
    assert forall|j: int|
        0 <= j < post.balances@.len() && (#[trigger] post.balances@[j]).portfolio_id == pid implies
        post.balances@[j].quantity == 0 by {
        if j < pre.balances@.len() {
            assert(pre.has_portfolio(pre.balances@[j].portfolio_id));
        } else {
            assert(post.balances@[j] == nbs[j - pre.balances@.len()]);
        }
    }
}

} // verus!
