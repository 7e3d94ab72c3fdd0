//! The trading-pair resolver: currencies and (base, quote) combinations
//! with stable identifiers.
//!
//! Resolution is a pure lookup over the registry tables: the same symbols
//! against the same registry always yield the same identifiers, which is
//! what the higher-level callers rely on when they resolve the same pair
//! several times within one request.

use crate::errors::LedgerError;
use crate::find::first_where;
use crate::find::lemma_first_where_all;
use crate::find::lemma_first_where_end;
use crate::find::lemma_first_where_push;
use crate::find::lemma_first_where_step;
use vstd::prelude::*;
use vstd::string::StringExecFns;

verus! {

/// A currency and its display symbol.
#[derive(Debug)]
pub struct Currency {
    pub id: i32,
    pub symbol: String,
}

/// A (base, quote) currency combination with its own identifier.
#[derive(Clone, Copy, Debug, PartialEq, Eq, Structural)]
pub struct TradingPair {
    pub id: i32,
    pub base_currency_id: i32,
    pub quote_currency_id: i32,
}

/// Does a currency carry this symbol?
pub open spec fn sym_matches(sym: Seq<char>) -> spec_fn(Currency) -> bool {
    |c: Currency| c.symbol@ == sym
}

/// Does a currency carry this id?
pub open spec fn cur_id_matches(id: i32) -> spec_fn(Currency) -> bool {
    |c: Currency| c.id == id
}

/// Does a pair combine these two currency ids?
pub open spec fn combo_matches(base_id: i32, quote_id: i32) -> spec_fn(TradingPair) -> bool {
    |p: TradingPair| p.base_currency_id == base_id && p.quote_currency_id == quote_id
}

/// Does a pair carry this id?
pub open spec fn pair_id_matches(id: i32) -> spec_fn(TradingPair) -> bool {
    |p: TradingPair| p.id == id
}

/// The registry of currencies and trading pairs.
pub struct PairRegistry {
    pub currencies: Vec<Currency>,
    pub pairs: Vec<TradingPair>,
    pub next_currency_id: i32,
    pub next_pair_id: i32,
}

impl PairRegistry {
    /// Well-formedness: identifiers grow strictly along each table and
    /// stay below the respective counter, and every pair refers to
    /// registered currencies.
    pub open spec fn wf(self) -> bool {
        &&& forall|i: int, j: int|
            0 <= i < j < self.currencies@.len() ==> #[trigger] self.currencies@[i].id
                < #[trigger] self.currencies@[j].id
        &&& forall|i: int|
            0 <= i < self.currencies@.len() ==> #[trigger] self.currencies@[i].id
                < self.next_currency_id
        &&& forall|i: int, j: int|
            0 <= i < j < self.pairs@.len() ==> #[trigger] self.pairs@[i].id
                < #[trigger] self.pairs@[j].id
        &&& forall|i: int|
            0 <= i < self.pairs@.len() ==> #[trigger] self.pairs@[i].id < self.next_pair_id
        &&& forall|i: int|
            0 <= i < self.pairs@.len() ==> self.spec_currency_by_id(
                #[trigger] self.pairs@[i].base_currency_id,
            ) is Some && self.spec_currency_by_id(self.pairs@[i].quote_currency_id) is Some
    }

    /// An empty registry.
    pub fn new() -> (r: PairRegistry)
        ensures
            r.wf(),
            r.currencies@ == Seq::<Currency>::empty(),
            r.pairs@ == Seq::<TradingPair>::empty(),
    {
        PairRegistry { currencies: Vec::new(), pairs: Vec::new(), next_currency_id: 1, next_pair_id: 1 }
    }

    /// The first currency registered under `sym`.
    pub open spec fn spec_currency_by_symbol(self, sym: Seq<char>) -> Option<Currency> {
        first_where(self.currencies@, sym_matches(sym))
    }

    /// The first currency registered under id `id`.
    pub open spec fn spec_currency_by_id(self, id: i32) -> Option<Currency> {
        first_where(self.currencies@, cur_id_matches(id))
    }

    /// The first pair combining the two currency ids.
    pub open spec fn spec_pair_by_ids(self, base_id: i32, quote_id: i32) -> Option<TradingPair> {
        first_where(self.pairs@, combo_matches(base_id, quote_id))
    }

    /// The first pair registered under id `id`.
    pub open spec fn spec_pair_by_id(self, id: i32) -> Option<TradingPair> {
        first_where(self.pairs@, pair_id_matches(id))
    }

    /// What resolving two symbols yields: the two currency ids and the
    /// pair id, or nothing if a symbol or the combination is absent.
    pub open spec fn spec_resolve(self, base: Seq<char>, quote: Seq<char>) -> Option<(i32, i32, i32)> {
        match self.spec_currency_by_symbol(base) {
            None => None,
            Some(b) => match self.spec_currency_by_symbol(quote) {
                None => None,
                Some(q) => match self.spec_pair_by_ids(b.id, q.id) {
                    None => None,
                    Some(p) => Some((b.id, q.id, p.id)),
                },
            },
        }
    }

    /// The index of the first currency carrying `sym`.
    fn find_currency_by_symbol(&self, sym: &str) -> (r: Option<usize>)
        ensures
            match self.spec_currency_by_symbol(sym@) {
                Some(c) => r is Some && r.unwrap() < self.currencies@.len()
                    && self.currencies@[r.unwrap() as int] == c,
                None => r is None,
            },
    {
        let n = self.currencies.len();
        let mut i: usize = 0;
        proof {
            lemma_first_where_all(self.currencies@, sym_matches(sym@));
        }
        while i < n
            invariant
                0 <= i <= n,
                n == self.currencies@.len(),
                first_where(self.currencies@, sym_matches(sym@)) == first_where(
                    self.currencies@.skip(i as int),
                    sym_matches(sym@),
                ),
            decreases n - i,
        {
            proof {
                lemma_first_where_step(self.currencies@, sym_matches(sym@), i as int);
                assert(sym_matches(sym@)(self.currencies@[i as int]) == (self.currencies@[i as int].symbol@
                    == sym@));
            }
            if crate::strutil::str_eq(self.currencies[i].symbol.as_str(), sym) {
                return Some(i);
            }
            i = i + 1;
        }
        proof {
            lemma_first_where_end(self.currencies@, sym_matches(sym@));
        }
        None
    }

    /// The index of the first currency carrying id `id`.
    fn find_currency_by_id(&self, id: i32) -> (r: Option<usize>)
        ensures
            match self.spec_currency_by_id(id) {
                Some(c) => r is Some && r.unwrap() < self.currencies@.len()
                    && self.currencies@[r.unwrap() as int] == c,
                None => r is None,
            },
    {
        let n = self.currencies.len();
        let mut i: usize = 0;
        proof {
            lemma_first_where_all(self.currencies@, cur_id_matches(id));
        }
        while i < n
            invariant
                0 <= i <= n,
                n == self.currencies@.len(),
                first_where(self.currencies@, cur_id_matches(id)) == first_where(
                    self.currencies@.skip(i as int),
                    cur_id_matches(id),
                ),
            decreases n - i,
        {
            proof {
                lemma_first_where_step(self.currencies@, cur_id_matches(id), i as int);
                assert(cur_id_matches(id)(self.currencies@[i as int]) == (self.currencies@[i as int].id
                    == id));
            }
            if self.currencies[i].id == id {
                return Some(i);
            }
            i = i + 1;
        }
        proof {
            lemma_first_where_end(self.currencies@, cur_id_matches(id));
        }
        None
    }

    /// The index of the first pair combining the two currency ids.
    fn find_pair_by_ids(&self, base_id: i32, quote_id: i32) -> (r: Option<usize>)
        ensures
            match self.spec_pair_by_ids(base_id, quote_id) {
                Some(p) => r is Some && r.unwrap() < self.pairs@.len()
                    && self.pairs@[r.unwrap() as int] == p,
                None => r is None,
            },
    {
        let n = self.pairs.len();
        let mut i: usize = 0;
        proof {
            lemma_first_where_all(self.pairs@, combo_matches(base_id, quote_id));
        }
        while i < n
            invariant
                0 <= i <= n,
                n == self.pairs@.len(),
                first_where(self.pairs@, combo_matches(base_id, quote_id)) == first_where(
                    self.pairs@.skip(i as int),
                    combo_matches(base_id, quote_id),
                ),
            decreases n - i,
        {
            proof {
                lemma_first_where_step(self.pairs@, combo_matches(base_id, quote_id), i as int);
                assert(combo_matches(base_id, quote_id)(self.pairs@[i as int]) == (self.pairs@[i as int].base_currency_id
                    == base_id && self.pairs@[i as int].quote_currency_id == quote_id));
            }
            if self.pairs[i].base_currency_id == base_id && self.pairs[i].quote_currency_id
                == quote_id {
                return Some(i);
            }
            i = i + 1;
        }
        proof {
            lemma_first_where_end(self.pairs@, combo_matches(base_id, quote_id));
        }
        None
    }

    /// The index of the first pair carrying id `id`.
    fn find_pair_by_id(&self, id: i32) -> (r: Option<usize>)
        ensures
            match self.spec_pair_by_id(id) {
                Some(p) => r is Some && r.unwrap() < self.pairs@.len()
                    && self.pairs@[r.unwrap() as int] == p,
                None => r is None,
            },
    {
        let n = self.pairs.len();
        let mut i: usize = 0;
        proof {
            lemma_first_where_all(self.pairs@, pair_id_matches(id));
        }
        while i < n
            invariant
                0 <= i <= n,
                n == self.pairs@.len(),
                first_where(self.pairs@, pair_id_matches(id)) == first_where(
                    self.pairs@.skip(i as int),
                    pair_id_matches(id),
                ),
            decreases n - i,
        {
            proof {
                lemma_first_where_step(self.pairs@, pair_id_matches(id), i as int);
                assert(pair_id_matches(id)(self.pairs@[i as int]) == (self.pairs@[i as int].id == id));
            }
            if self.pairs[i].id == id {
                return Some(i);
            }
            i = i + 1;
        }
        proof {
            lemma_first_where_end(self.pairs@, pair_id_matches(id));
        }
        None
    }

    /// Resolve `(base, quote)` symbols to `(base_currency_id,
    /// quote_currency_id, trading_pair_id)`; `TradingPairNotFound` exactly
    /// where a symbol or the combination is absent.
    pub fn resolve(&self, base: &str, quote: &str) -> (r: Result<(i32, i32, i32), LedgerError>)
        ensures
            match self.spec_resolve(base@, quote@) {
                Some(t) => r == Ok::<(i32, i32, i32), LedgerError>(t),
                None => r == Err::<(i32, i32, i32), LedgerError>(LedgerError::TradingPairNotFound),
            },
    {
        let bi = match self.find_currency_by_symbol(base) {
            Some(k) => k,
            None => {
                return Err(LedgerError::TradingPairNotFound);
            },
        };
        let qi = match self.find_currency_by_symbol(quote) {
            Some(k) => k,
            None => {
                return Err(LedgerError::TradingPairNotFound);
            },
        };
        let base_id = self.currencies[bi].id;
        let quote_id = self.currencies[qi].id;
        match self.find_pair_by_ids(base_id, quote_id) {
            Some(k) => Ok((base_id, quote_id, self.pairs[k].id)),
            None => Err(LedgerError::TradingPairNotFound),
        }
    }

    /// The display symbol of a currency id; relied on by the read-back
    /// views. `TradingPairNotFound` for an unregistered id.
    pub fn get_currency(&self, currency_id: i32) -> (r: Result<String, LedgerError>)
        ensures
            match self.spec_currency_by_id(currency_id) {
                Some(c) => r is Ok && r.unwrap()@ == c.symbol@,
                None => r == Err::<String, LedgerError>(LedgerError::TradingPairNotFound),
            },
    {
        match self.find_currency_by_id(currency_id) {
            Some(k) => Ok(self.currencies[k].symbol.clone()),
            None => Err(LedgerError::TradingPairNotFound),
        }
    }

    /// The `(base, quote)` symbols of a pair id: the reverse lookup used
    /// when orders are listed.  Owed to succeed for every pair id the
    /// registry holds, since a well-formed registry registers both
    /// currencies of every pair.
    pub fn get_trading_pair(&self, pair_id: i32) -> (r: Result<(String, String), LedgerError>)
        requires
            self.wf(),
        ensures
            match self.spec_pair_by_id(pair_id) {
                Some(p) => r is Ok && r.unwrap().0@ == self.spec_currency_by_id(
                    p.base_currency_id,
                ).unwrap().symbol@ && r.unwrap().1@ == self.spec_currency_by_id(
                    p.quote_currency_id,
                ).unwrap().symbol@,
                None => r == Err::<(String, String), LedgerError>(LedgerError::TradingPairNotFound),
            },
    {
        let k = match self.find_pair_by_id(pair_id) {
            Some(k) => k,
            None => {
                return Err(LedgerError::TradingPairNotFound);
            },
        };
        proof {
            crate::find::lemma_first_where_found(self.pairs@, pair_id_matches(pair_id));
            let p = self.spec_pair_by_id(pair_id).unwrap();
            let j = choose|j: int| 0 <= j < self.pairs@.len() && self.pairs@.index(j) == p;
        }
        let base_id = self.pairs[k].base_currency_id;
        let quote_id = self.pairs[k].quote_currency_id;
        let bk = match self.find_currency_by_id(base_id) {
            Some(bk) => bk,
            None => {
                return Err(LedgerError::TradingPairNotFound);
            },
        };
        let qk = match self.find_currency_by_id(quote_id) {
            Some(qk) => qk,
            None => {
                return Err(LedgerError::TradingPairNotFound);
            },
        };
        Ok((self.currencies[bk].symbol.clone(), self.currencies[qk].symbol.clone()))
    }

    /// Register a symbol, or return the id it already has.  The registry
    /// is grown by the surrounding application at startup; the ledger only
    /// reads it.
    pub fn add_currency(&mut self, symbol: &str) -> (r: Result<i32, LedgerError>)
        requires
            old(self).wf(),
        ensures
            final(self).wf(),
            final(self).pairs@ == old(self).pairs@,
            match old(self).spec_currency_by_symbol(symbol@) {
                Some(c) => r == Ok::<i32, LedgerError>(c.id) && *final(self) == *old(self),
                None => if old(self).next_currency_id < i32::MAX {
                    &&& r == Ok::<i32, LedgerError>(old(self).next_currency_id)
                    &&& final(self).currencies@.len() == old(self).currencies@.len() + 1
                    &&& final(self).currencies@.drop_last() == old(self).currencies@
                    &&& final(self).currencies@.last().id == old(self).next_currency_id
                    &&& final(self).currencies@.last().symbol@ == symbol@
                    &&& final(self).next_currency_id == old(self).next_currency_id + 1
                    &&& final(self).next_pair_id == old(self).next_pair_id
                } else {
                    r == Err::<i32, LedgerError>(LedgerError::TransactionAborted)
                        && *final(self) == *old(self)
                },
            },
    {
        match self.find_currency_by_symbol(symbol) {
            Some(k) => Ok(self.currencies[k].id),
            None => {
                if self.next_currency_id == i32::MAX {
                    return Err(LedgerError::TransactionAborted);
                }
                let id = self.next_currency_id;
                let c = Currency { id, symbol: String::from_str(symbol) };
                proof {
                    lemma_push_preserves_currency_lookup(*self, c);
                }
                self.currencies.push(c);
                self.next_currency_id = id + 1;
                proof {
                    assert(self.currencies@.drop_last() =~= old(self).currencies@);
                }
                Ok(id)
            },
        }
    }

    /// Register a (base, quote) combination over already-registered
    /// symbols, or return the id it already has.
    pub fn add_pair(&mut self, base: &str, quote: &str) -> (r: Result<i32, LedgerError>)
        requires
            old(self).wf(),
        ensures
            final(self).wf(),
            final(self).currencies@ == old(self).currencies@,
            match old(self).spec_resolve(base@, quote@) {
                Some(t) => r == Ok::<i32, LedgerError>(t.2) && *final(self) == *old(self),
                None => {
                    if old(self).spec_currency_by_symbol(base@) is None || old(
                        self,
                    ).spec_currency_by_symbol(quote@) is None {
                        r == Err::<i32, LedgerError>(LedgerError::TradingPairNotFound)
                            && *final(self) == *old(self)
                    } else if old(self).next_pair_id < i32::MAX {
                        let b = old(self).spec_currency_by_symbol(base@).unwrap();
                        let q = old(self).spec_currency_by_symbol(quote@).unwrap();
                        &&& r == Ok::<i32, LedgerError>(old(self).next_pair_id)
                        &&& final(self).pairs@ == old(self).pairs@.push(
                            TradingPair {
                                id: old(self).next_pair_id,
                                base_currency_id: b.id,
                                quote_currency_id: q.id,
                            },
                        )
                        &&& final(self).next_pair_id == old(self).next_pair_id + 1
                        &&& final(self).next_currency_id == old(self).next_currency_id
                    } else {
                        r == Err::<i32, LedgerError>(LedgerError::TransactionAborted)
                            && *final(self) == *old(self)
                    }
                },
            },
    {
        let bi = match self.find_currency_by_symbol(base) {
            Some(k) => k,
            None => {
                return Err(LedgerError::TradingPairNotFound);
            },
        };
        let qi = match self.find_currency_by_symbol(quote) {
            Some(k) => k,
            None => {
                return Err(LedgerError::TradingPairNotFound);
            },
        };
        let base_id = self.currencies[bi].id;
        let quote_id = self.currencies[qi].id;
        match self.find_pair_by_ids(base_id, quote_id) {
            Some(k) => Ok(self.pairs[k].id),
            None => {
                if self.next_pair_id == i32::MAX {
                    return Err(LedgerError::TransactionAborted);
                }
                let id = self.next_pair_id;
                let p = TradingPair { id, base_currency_id: base_id, quote_currency_id: quote_id };
                proof {
                    crate::find::lemma_first_where_found(self.currencies@, cur_id_matches(base_id));
                    if self.spec_currency_by_id(base_id) is None {
                        assert(!(cur_id_matches(base_id)(self.currencies@[bi as int])));
                    }
                    crate::find::lemma_first_where_found(self.currencies@, cur_id_matches(quote_id));
                    if self.spec_currency_by_id(quote_id) is None {
                        assert(!(cur_id_matches(quote_id)(self.currencies@[qi as int])));
                    }
                    lemma_pair_push_keeps_currency_refs(*self, p);
                }
                self.pairs.push(p);
                self.next_pair_id = id + 1;
                Ok(id)
            },
        }
    }
}

/// Pushing a currency leaves every successful id lookup as it was.
proof fn lemma_push_preserves_currency_lookup(reg: PairRegistry, c: Currency)
    ensures
        forall|id: i32|
            #[trigger] first_where(reg.currencies@.push(c), cur_id_matches(id)) == match first_where(
                reg.currencies@,
                cur_id_matches(id),
            ) {
                Some(y) => Some(y),
                None => if cur_id_matches(id)(c) {
                    Some(c)
                } else {
                    None
                },
            },
{
    assert forall|id: i32| true implies #[trigger] first_where(
        reg.currencies@.push(c),
        cur_id_matches(id),
    ) == match first_where(reg.currencies@, cur_id_matches(id)) {
        Some(y) => Some(y),
        None => if cur_id_matches(id)(c) {
            Some(c)
        } else {
            None
        },
    } by {
        lemma_first_where_push(reg.currencies@, cur_id_matches(id), c);
    }
}

/// Pushing a pair whose two currencies are registered keeps the registry
/// referentially whole.
proof fn lemma_pair_push_keeps_currency_refs(reg: PairRegistry, p: TradingPair)
    requires
        reg.wf(),
        reg.spec_currency_by_id(p.base_currency_id) is Some,
        reg.spec_currency_by_id(p.quote_currency_id) is Some,
    ensures
        forall|i: int|
            0 <= i < reg.pairs@.push(p).len() ==> reg.spec_currency_by_id(
                #[trigger] reg.pairs@.push(p)[i].base_currency_id,
            ) is Some && reg.spec_currency_by_id(reg.pairs@.push(p)[i].quote_currency_id) is Some,
{
    assert forall|i: int| 0 <= i < reg.pairs@.push(p).len() implies reg.spec_currency_by_id(
        #[trigger] reg.pairs@.push(p)[i].base_currency_id,
    ) is Some && reg.spec_currency_by_id(reg.pairs@.push(p)[i].quote_currency_id) is Some by {
        if i < reg.pairs@.len() {
            assert(reg.pairs@.push(p)[i] == reg.pairs@[i]);
        } else {
            assert(reg.pairs@.push(p)[i] == p);
        }
    }
}

} // verus!
