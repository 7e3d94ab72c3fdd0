use portfolio_ledger::errors::LedgerError;
use portfolio_ledger::ledger::AddPortfolioInfo;
use portfolio_ledger::ledger::Ledger;
use portfolio_ledger::orders::state_label;
use portfolio_ledger::orders::OrderData;
use portfolio_ledger::pairs::PairRegistry;
use portfolio_ledger::types::ResponseData;

fn btc_usd_registry() -> PairRegistry {
    let mut reg = PairRegistry::new();
    reg.add_currency("BTC").unwrap();
    reg.add_currency("USD").unwrap();
    reg.add_currency("ETH").unwrap();
    reg.add_pair("BTC", "USD").unwrap();
    reg
}

fn main_portfolio(reg: &PairRegistry, ledger: &mut Ledger, owner: i32) -> i32 {
    let info = AddPortfolioInfo { name: "Main".to_string(), position: vec!["BTC/USD".to_string()] };
    ledger.add_portfolio(reg, owner, &info).unwrap()
}

fn buy_order(portfolio_id: i32) -> OrderData {
    OrderData {
        base: "BTC".to_string(),
        quote: "USD".to_string(),
        order_type: "buy".to_string(),
        price: "100".to_string(),
        quantity: "2".to_string(),
        portfolio_id,
    }
}

#[test]
fn registry_resolves_registered_pairs() {
    let reg = btc_usd_registry();
    let (base_id, quote_id, pair_id) = reg.resolve("BTC", "USD").unwrap();
    assert_eq!(reg.get_currency(base_id).unwrap(), "BTC");
    assert_eq!(reg.get_currency(quote_id).unwrap(), "USD");
    assert_eq!(reg.get_trading_pair(pair_id).unwrap(), ("BTC".to_string(), "USD".to_string()));
    // the same symbols always resolve to the same ids
    assert_eq!(reg.resolve("BTC", "USD").unwrap(), (base_id, quote_id, pair_id));
}

#[test]
fn registry_rejects_unregistered_lookups() {
    let reg = btc_usd_registry();
    assert_eq!(reg.resolve("DOGE", "USD"), Err(LedgerError::TradingPairNotFound));
    assert_eq!(reg.resolve("ETH", "USD"), Err(LedgerError::TradingPairNotFound));
    assert_eq!(reg.get_currency(999), Err(LedgerError::TradingPairNotFound));
}

#[test]
fn registering_a_symbol_twice_returns_the_same_id() {
    let mut reg = PairRegistry::new();
    let a = reg.add_currency("BTC").unwrap();
    let b = reg.add_currency("BTC").unwrap();
    assert_eq!(a, b);
    let p = reg.add_pair("BTC", "BTC").unwrap();
    let q = reg.add_pair("BTC", "BTC").unwrap();
    assert_eq!(p, q);
}

#[test]
fn created_portfolio_lists_one_position_and_two_zero_balances() {
    let reg = btc_usd_registry();
    let mut ledger = Ledger::new();
    let pid = main_portfolio(&reg, &mut ledger, 1);
    let listing = ledger.get_portfolio_names(&reg).unwrap();
    assert_eq!(listing.len(), 1);
    assert_eq!(listing[0].name, "Main");
    assert_eq!(listing[0].id, pid);
    assert_eq!(listing[0].positions.len(), 2);
    assert_eq!(listing[0].positions[0].balance, 0);
    assert_eq!(listing[0].positions[0].symbol, "BTC");
    assert_eq!(listing[0].positions[1].balance, 0);
    assert_eq!(listing[0].positions[1].symbol, "USD");
    assert_eq!(ledger.positions.len(), 1);
    assert_eq!(ledger.quotations.len(), 1);
}

#[test]
fn each_requested_position_gets_its_own_rows() {
    let mut reg = btc_usd_registry();
    reg.add_pair("ETH", "USD").unwrap();
    let mut ledger = Ledger::new();
    let info = AddPortfolioInfo {
        name: "Both".to_string(),
        position: vec!["BTC/USD".to_string(), "ETH/USD".to_string()],
    };
    let pid = ledger.add_portfolio(&reg, 1, &info).unwrap();
    assert_eq!(ledger.positions.len(), 2);
    assert_eq!(ledger.quotations.len(), 2);
    assert_eq!(ledger.balances.len(), 4);
    let listing = ledger.get_portfolio_names(&reg).unwrap();
    assert_eq!(listing[0].id, pid);
    let symbols: Vec<&str> =
        listing[0].positions.iter().map(|l| l.symbol.as_str()).collect();
    assert_eq!(symbols, vec!["BTC", "USD", "ETH", "USD"]);
    assert!(listing[0].positions.iter().all(|l| l.balance == 0));
}

#[test]
fn removal_by_a_duplicated_name_takes_the_first() {
    let reg = btc_usd_registry();
    let mut ledger = Ledger::new();
    let first = main_portfolio(&reg, &mut ledger, 1);
    let second = main_portfolio(&reg, &mut ledger, 1);
    assert_ne!(first, second);
    ledger.remove_portfolio("Main").unwrap();
    let listing = ledger.get_portfolio_names(&reg).unwrap();
    assert_eq!(listing.len(), 1);
    assert_eq!(listing[0].id, second);
    assert_eq!(listing[0].name, "Main");
}

#[test]
fn failed_creation_changes_nothing() {
    let reg = btc_usd_registry();
    let mut ledger = Ledger::new();
    let info =
        AddPortfolioInfo { name: "P".to_string(), position: vec!["ETH/USD".to_string()] };
    assert_eq!(ledger.add_portfolio(&reg, 1, &info), Err(LedgerError::TradingPairNotFound));
    let malformed =
        AddPortfolioInfo { name: "P".to_string(), position: vec!["BTCUSD".to_string()] };
    assert_eq!(ledger.add_portfolio(&reg, 1, &malformed), Err(LedgerError::TradingPairNotFound));
    assert!(ledger.portfolios.is_empty());
    assert!(ledger.positions.is_empty());
    assert!(ledger.quotations.is_empty());
    assert!(ledger.balances.is_empty());
}

#[test]
fn creation_without_id_space_is_aborted_whole() {
    let reg = btc_usd_registry();
    let mut ledger = Ledger::new();
    ledger.next_balance_id = i32::MAX - 1;
    let info =
        AddPortfolioInfo { name: "P".to_string(), position: vec!["BTC/USD".to_string()] };
    assert_eq!(ledger.add_portfolio(&reg, 1, &info), Err(LedgerError::TransactionAborted));
    assert!(ledger.portfolios.is_empty());
    assert!(ledger.balances.is_empty());
}

#[test]
fn removal_cascades_and_spares_other_portfolios() {
    let reg = btc_usd_registry();
    let mut ledger = Ledger::new();
    let first = main_portfolio(&reg, &mut ledger, 1);
    let info =
        AddPortfolioInfo { name: "Side".to_string(), position: vec!["BTC/USD".to_string()] };
    let second = ledger.add_portfolio(&reg, 1, &info).unwrap();
    ledger.place_order(&reg, 1, 77, &buy_order(first)).unwrap();
    ledger.remove_portfolio("Main").unwrap();
    let listing = ledger.get_portfolio_names(&reg).unwrap();
    assert_eq!(listing.len(), 1);
    assert_eq!(listing[0].name, "Side");
    assert_eq!(listing[0].id, second);
    // no orphaned rows reference the removed portfolio id
    assert!(ledger.positions.iter().all(|p| p.portfolio_id != first));
    assert!(ledger.balances.iter().all(|b| b.portfolio_id != first));
    assert!(ledger.orders.iter().all(|o| o.portfolio_id != first));
    assert_eq!(ledger.positions.len(), 1);
    assert_eq!(ledger.quotations.len(), 1);
    assert_eq!(ledger.orders.len(), 0);
}

#[test]
fn removing_an_unknown_name_fails_and_changes_nothing() {
    let reg = btc_usd_registry();
    let mut ledger = Ledger::new();
    main_portfolio(&reg, &mut ledger, 1);
    assert_eq!(ledger.remove_portfolio("Nope"), Err(LedgerError::PortfolioNotFound));
    assert_eq!(ledger.portfolios.len(), 1);
    assert_eq!(ledger.balances.len(), 2);
}

#[test]
fn placed_order_is_recorded_pending() {
    let reg = btc_usd_registry();
    let mut ledger = Ledger::new();
    let pid = main_portfolio(&reg, &mut ledger, 1);
    assert_eq!(ledger.place_order(&reg, 1, 77, &buy_order(pid)), Ok(77));
    assert_eq!(ledger.orders.len(), 1);
    let row = &ledger.orders[0];
    assert_eq!(row.id, 77);
    assert_eq!(row.state, 0);
    assert!(row.buyin);
    assert_eq!(row.price, 100);
    assert_eq!(row.qty, 2);
    assert_eq!(row.portfolio_id, pid);
    let page = ledger.get_order(&reg, pid, None, None).unwrap();
    assert_eq!(page.len(), 1);
    assert_eq!(page[0].id, 77);
    assert!(page[0].buyin);
    assert_eq!(page[0].state, "pending");
    assert_eq!(page[0].base, "BTC");
    assert_eq!(page[0].quote, "USD");
    assert_eq!(page[0].qty, 2);
    assert_eq!(page[0].price, 100);
}

#[test]
fn sell_orders_are_not_buyin() {
    let reg = btc_usd_registry();
    let mut ledger = Ledger::new();
    let pid = main_portfolio(&reg, &mut ledger, 1);
    let mut data = buy_order(pid);
    data.order_type = "sell".to_string();
    ledger.place_order(&reg, 1, 5, &data).unwrap();
    assert!(!ledger.orders[0].buyin);
}

#[test]
fn order_against_foreign_portfolio_is_refused_whole() {
    let reg = btc_usd_registry();
    let mut ledger = Ledger::new();
    let pid = main_portfolio(&reg, &mut ledger, 1);
    // authenticated as another account
    assert_eq!(
        ledger.place_order(&reg, 2, 77, &buy_order(pid)),
        Err(LedgerError::PositionNotFound)
    );
    // or against a portfolio id that does not exist
    assert_eq!(
        ledger.place_order(&reg, 1, 77, &buy_order(pid + 1)),
        Err(LedgerError::PositionNotFound)
    );
    assert!(ledger.orders.is_empty());
}

#[test]
fn order_with_unknown_pair_is_refused() {
    let reg = btc_usd_registry();
    let mut ledger = Ledger::new();
    let pid = main_portfolio(&reg, &mut ledger, 1);
    let mut data = buy_order(pid);
    data.base = "ETH".to_string();
    assert_eq!(ledger.place_order(&reg, 1, 77, &data), Err(LedgerError::TradingPairNotFound));
    assert!(ledger.orders.is_empty());
}

#[test]
fn non_positive_or_malformed_amounts_are_refused() {
    let reg = btc_usd_registry();
    let mut ledger = Ledger::new();
    let pid = main_portfolio(&reg, &mut ledger, 1);
    for bad in ["0", "-1", "abc", "", "99999999999999999999999999"] {
        let mut data = buy_order(pid);
        data.quantity = bad.to_string();
        assert_eq!(ledger.place_order(&reg, 1, 77, &data), Err(LedgerError::InvalidQuantity));
        let mut data = buy_order(pid);
        data.price = bad.to_string();
        assert_eq!(ledger.place_order(&reg, 1, 77, &data), Err(LedgerError::InvalidQuantity));
    }
    assert!(ledger.orders.is_empty());
}

#[test]
fn order_listing_pages_with_defaults_and_clamps() {
    let reg = btc_usd_registry();
    let mut ledger = Ledger::new();
    let pid = main_portfolio(&reg, &mut ledger, 1);
    for order_id in [10, 11, 12] {
        ledger.place_order(&reg, 1, order_id, &buy_order(pid)).unwrap();
    }
    let all = ledger.get_order(&reg, pid, None, None).unwrap();
    assert_eq!(all.iter().map(|o| o.id).collect::<Vec<_>>(), vec![10, 11, 12]);
    let second = ledger.get_order(&reg, pid, Some(1), Some(1)).unwrap();
    assert_eq!(second.len(), 1);
    assert_eq!(second[0].id, 11);
    let clamped = ledger.get_order(&reg, pid, Some(-3), Some(-1)).unwrap();
    assert!(clamped.is_empty());
    let beyond = ledger.get_order(&reg, pid, Some(9), Some(5)).unwrap();
    assert!(beyond.is_empty());
    // another portfolio id selects nothing
    let other = ledger.get_order(&reg, pid + 1, None, None).unwrap();
    assert!(other.is_empty());
}

#[test]
fn state_labels_decode_all_states() {
    assert_eq!(state_label(0), "pending");
    assert_eq!(state_label(1), "success");
    assert_eq!(state_label(2), "fail");
    assert_eq!(state_label(3), "unknown");
    assert_eq!(state_label(-1), "unknown");
}

#[test]
fn response_data_holds_the_envelope_fields() {
    let resp = ResponseData {
        status: "successful".to_string(),
        data: Some(vec!["Main".to_string()]),
        len: Some(1),
        message: None,
    };
    assert_eq!(resp.status, "successful");
    assert_eq!(resp.len, Some(1));
    assert!(resp.message.is_none());
}
