//! The portfolio read-back view: every portfolio with its per-currency
//! balances, in id order.

use crate::errors::LedgerError;
use crate::ledger::bal_in_portfolio;
use crate::ledger::BalanceRow;
use crate::ledger::Ledger;
use crate::ledger::PortfolioRow;
use crate::pairs::PairRegistry;
use vstd::prelude::*;

verus! {

/// One balance line of a portfolio: the held quantity and the currency's
/// display symbol.
pub struct BalanceView {
    pub balance: i64,
    pub symbol: String,
}

/// One listed portfolio with its balance lines.
pub struct PortfolioView {
    pub name: String,
    pub id: i32,
    pub positions: Vec<BalanceView>,
}

/// A balance line renders a balance row: its quantity, and the symbol
/// the registry holds for its currency.
pub open spec fn line_ok(reg: PairRegistry, v: BalanceView, b: BalanceRow) -> bool {
    &&& reg.spec_currency_by_id(b.currency_id) is Some
    &&& v.balance == b.quantity
    &&& v.symbol@ == reg.spec_currency_by_id(b.currency_id).unwrap().symbol@
}

/// A portfolio view renders a portfolio row: its id and name, and one
/// line per balance row of the portfolio, in table order.
pub open spec fn portfolio_view_ok(
    l: Ledger,
    reg: PairRegistry,
    v: PortfolioView,
    pf: PortfolioRow,
) -> bool {
    let pbal = l.balances@.filter(bal_in_portfolio(pf.id));
    &&& v.id == pf.id
    &&& v.name@ == pf.name@
    &&& v.positions@.len() == pbal.len()
    &&& forall|j: int| 0 <= j < pbal.len() ==> line_ok(reg, #[trigger] v.positions@[j], pbal[j])
}

/// A freshly created portfolio reads back all zero: where every balance
/// row of a portfolio stands at zero — as after a creation, which writes
/// one zero pair per requested position string — its listed view shows
/// exactly those rows, every line at zero.
pub proof fn lemma_new_portfolio_lists_zero_balances(
    l: Ledger,
    reg: PairRegistry,
    v: PortfolioView,
    pf: PortfolioRow,
    n: int,
)
    requires
        portfolio_view_ok(l, reg, v, pf),
        l.balances@.filter(bal_in_portfolio(pf.id)).len() == 2 * n,
        forall|j: int|
            0 <= j < l.balances@.len() && (#[trigger] l.balances@[j]).portfolio_id == pf.id
                ==> l.balances@[j].quantity == 0,
    ensures
        v.positions@.len() == 2 * n,
        forall|j: int| 0 <= j < v.positions@.len() ==> (#[trigger] v.positions@[j]).balance == 0,
{
    let pbal = l.balances@.filter(bal_in_portfolio(pf.id));
    crate::find::lemma_filter_elements(l.balances@, bal_in_portfolio(pf.id));
    l.balances@.filter_lemma(bal_in_portfolio(pf.id));
    assert forall|j: int| 0 <= j < v.positions@.len() implies (
    #[trigger] v.positions@[j]).balance == 0 by {
        assert(line_ok(reg, v.positions@[j], pbal[j]));
        assert(bal_in_portfolio(pf.id)(pbal[j]));
        let m = choose|m: int| 0 <= m < l.balances@.len() && l.balances@.index(m) == pbal[j];
        assert(l.balances@[m].quantity == 0);
    }
}

impl Ledger {
    /// List every portfolio with its balance lines, in table order —
    /// which a well-formed ledger keeps sorted by id.
    ///
    /// Owed to succeed whenever every balance row's currency is
    /// registered; `TradingPairNotFound` if and only if one is not.
    #[verifier::loop_isolation(false)]
    pub fn get_portfolio_names(&self, reg: &PairRegistry) -> (r: Result<
        Vec<PortfolioView>,
        LedgerError,
    >)
        requires
            self.wf(),
        ensures
            match r {
                Ok(v) => {
                    &&& v@.len() == self.portfolios@.len()
                    &&& forall|k: int|
                        0 <= k < v@.len() ==> portfolio_view_ok(
                            *self,
                            *reg,
                            #[trigger] v@[k],
                            self.portfolios@[k],
                        )
                    &&& forall|j: int|
                        0 <= j < self.balances@.len() ==> reg.spec_currency_by_id(
                            (#[trigger] self.balances@[j]).currency_id,
                        ) is Some
                },
                Err(e) => {
                    &&& e == LedgerError::TradingPairNotFound
                    &&& exists|j: int|
                        0 <= j < self.balances@.len() && reg.spec_currency_by_id(
                            (#[trigger] self.balances@[j]).currency_id,
                        ) is None
                },
            },
    {
        let mut out: Vec<PortfolioView> = Vec::new();
        let pn = self.portfolios.len();
        let mut k: usize = 0;
        while k < pn
            invariant
                0 <= k <= pn,
                out@.len() == k,
                forall|k2: int|
                    0 <= k2 < k ==> portfolio_view_ok(
                        *self,
                        *reg,
                        #[trigger] out@[k2],
                        self.portfolios@[k2],
                    ),
                forall|k2: int, j: int|
                    0 <= k2 < k && 0 <= j < self.balances@.len() && (
                    #[trigger] self.balances@[j]).portfolio_id == (
                    #[trigger] self.portfolios@[k2]).id ==> reg.spec_currency_by_id(
                        self.balances@[j].currency_id,
                    ) is Some,
            decreases pn - k,
        {
            let pfid = self.portfolios[k].id;
            let bn = self.balances.len();
            let mut views: Vec<BalanceView> = Vec::new();
            let mut j: usize = 0;
            while j < bn
                invariant
                    0 <= j <= bn,
                    views@.len() == self.balances@.subrange(0, j as int).filter(
                        bal_in_portfolio(pfid),
                    ).len(),
                    forall|m: int|
                        0 <= m < views@.len() ==> line_ok(
                            *reg,
                            #[trigger] views@[m],
                            self.balances@.subrange(0, j as int).filter(bal_in_portfolio(pfid))[m],
                        ),
                    forall|j2: int|
                        0 <= j2 < j && (#[trigger] self.balances@[j2]).portfolio_id == pfid
                            ==> reg.spec_currency_by_id(self.balances@[j2].currency_id) is Some,
                decreases bn - j,
            {
                let b = self.balances[j];
                proof {
                    assert(self.balances@.subrange(0, j as int + 1) =~= self.balances@.subrange(
                        0,
                        j as int,
                    ).push(self.balances@[j as int]));
                    crate::find::lemma_filter_push(
                        self.balances@.subrange(0, j as int),
                        bal_in_portfolio(pfid),
                        self.balances@[j as int],
                    );
                    assert(bal_in_portfolio(pfid)(self.balances@[j as int]) == (self.balances@[j as int].portfolio_id
                        == pfid));
                }
                if b.portfolio_id == pfid {
                    match reg.get_currency(b.currency_id) {
                        Ok(sym) => {
                            views.push(BalanceView { balance: b.quantity, symbol: sym });
                        },
                        Err(_) => {
                            assert(reg.spec_currency_by_id(
                                self.balances@[j as int].currency_id,
                            ) is None);
                            return Err(LedgerError::TradingPairNotFound);
                        },
                    }
                }
                j = j + 1;
            }
            proof {
                assert(self.balances@.subrange(0, bn as int) =~= self.balances@);
            }
            out.push(
                PortfolioView { name: self.portfolios[k].name.clone(), id: pfid, positions: views },
            );
            k = k + 1;
        }
        proof {
            assert forall|j: int| 0 <= j < self.balances@.len() implies reg.spec_currency_by_id(
                (#[trigger] self.balances@[j]).currency_id,
            ) is Some by {
                assert(self.has_portfolio(self.balances@[j].portfolio_id));
                let w = choose|w: int|
                    0 <= w < self.portfolios@.len() && (#[trigger] self.portfolios@[w]).id
                        == self.balances@[j].portfolio_id;
            }
        }
        Ok(out)
    }
}

} // verus!
