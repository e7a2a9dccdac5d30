use erc20_monitor::chain::BlockHandle;
use erc20_monitor::chain::ClientError;
use erc20_monitor::chain::LogEntry;
use erc20_monitor::chain::Transaction;
use erc20_monitor::filter::LogFilter;
use erc20_monitor::filter::TopicPredicate;
use erc20_monitor::ident::Address;
use erc20_monitor::ident::Hash256;
use erc20_monitor::monitor::Action;
use erc20_monitor::monitor::Event;
use erc20_monitor::monitor::Monitor;
use erc20_monitor::monitor::Phase;
use erc20_monitor::record::TokenRecord;
use erc20_monitor::uint::Uint256;

fn hash(fill: u8) -> Hash256 {
    Hash256::new([fill; 32])
}

fn address(fill: u8) -> Address {
    Address::new([fill; 20])
}

fn block(number: u64) -> BlockHandle {
    BlockHandle { number, hash: hash(0xb0) }
}

fn entry(tx: u8, contract: u8) -> LogEntry {
    LogEntry { transaction_hash: hash(tx), address: address(contract), topics: Vec::new() }
}

fn creation(tx: u8) -> Event {
    Event::Transaction(Ok(Some(Transaction { hash: hash(tx), destination: None })))
}

fn transfer(tx: u8) -> Event {
    Event::Transaction(Ok(Some(Transaction { hash: hash(tx), destination: Some(address(0x99)) })))
}

/// A monitor that has just been handed the log entries of block 10.
fn scanning(entries: Vec<LogEntry>) -> (Monitor, Action) {
    let monitor = Monitor::new();
    let (monitor, action) = monitor.step(Event::Block(Ok(block(10))));
    assert_eq!(
        action,
        Action::FetchLogs(LogFilter { block_hash: hash(0xb0), first_topic: TopicPredicate::Any })
    );
    monitor.step(Event::Logs(Ok(entries)))
}

#[test]
fn new_monitor_waits_for_the_latest_block() {
    let monitor = Monitor::new();
    assert_eq!(monitor.pending(), Action::FetchLatestBlock);
    assert_eq!(*monitor.current_phase(), Phase::Polling);
    assert_eq!(monitor.last_processed(), 0);
}

#[test]
fn new_block_is_committed_and_its_logs_are_fetched() {
    let monitor = Monitor::new();
    let (monitor, action) = monitor.step(Event::Block(Ok(block(10))));
    let filter = LogFilter { block_hash: hash(0xb0), first_topic: TopicPredicate::Any };
    assert_eq!(action, Action::FetchLogs(filter));
    assert_eq!(*monitor.current_phase(), Phase::FetchingLogs { filter });
    assert_eq!(monitor.last_processed(), 10);
}

#[test]
fn block_seen_before_starts_no_work() {
    let (monitor, _) = scanning(Vec::new());
    assert_eq!(monitor.last_processed(), 10);
    let (monitor, action) = monitor.step(Event::Block(Ok(block(10))));
    assert_eq!(action, Action::FetchLatestBlock);
    assert_eq!(*monitor.current_phase(), Phase::Polling);
    let (monitor, action) = monitor.step(Event::Block(Ok(block(10))));
    assert_eq!(action, Action::FetchLatestBlock);
    assert_eq!(*monitor.current_phase(), Phase::Polling);
    assert_eq!(monitor.last_processed(), 10);
}

#[test]
fn block_zero_starts_no_work_on_a_new_monitor() {
    let monitor = Monitor::new();
    let (monitor, action) = monitor.step(Event::Block(Ok(block(0))));
    assert_eq!(action, Action::FetchLatestBlock);
    assert_eq!(*monitor.current_phase(), Phase::Polling);
}

#[test]
fn failed_block_fetch_polls_again() {
    let monitor = Monitor::new();
    let (monitor, action) = monitor.step(Event::Block(Err(ClientError::NodeUnavailable)));
    assert_eq!(action, Action::FetchLatestBlock);
    assert_eq!(*monitor.current_phase(), Phase::Polling);
    assert_eq!(monitor.last_processed(), 0);
    let (_, action) = monitor.step(Event::Block(Err(ClientError::DecodeError)));
    assert_eq!(action, Action::FetchLatestBlock);
}

#[test]
fn failed_log_fetch_gives_the_block_up_for_good() {
    let monitor = Monitor::new();
    let (monitor, _) = monitor.step(Event::Block(Ok(block(10))));
    let (monitor, action) = monitor.step(Event::Logs(Err(ClientError::NodeUnavailable)));
    assert_eq!(action, Action::FetchLatestBlock);
    assert_eq!(*monitor.current_phase(), Phase::Polling);
    assert_eq!(monitor.last_processed(), 10);
    let (monitor, action) = monitor.step(Event::Block(Ok(block(10))));
    assert_eq!(action, Action::FetchLatestBlock);
    assert_eq!(*monitor.current_phase(), Phase::Polling);
}

#[test]
fn block_without_logs_polls_again() {
    let (monitor, action) = scanning(Vec::new());
    assert_eq!(action, Action::FetchLatestBlock);
    assert_eq!(*monitor.current_phase(), Phase::Polling);
}

#[test]
fn first_entry_is_resolved_first() {
    let (monitor, action) = scanning(vec![entry(1, 0xa1), entry(2, 0xa2)]);
    assert_eq!(action, Action::FetchTransaction(hash(1)));
    assert_eq!(
        *monitor.current_phase(),
        Phase::Resolving { entries: vec![entry(1, 0xa1), entry(2, 0xa2)], next: 0 }
    );
}

#[test]
fn erc20_creation_is_reported() {
    let (monitor, action) = scanning(vec![entry(1, 0xa1)]);
    assert_eq!(action, Action::FetchTransaction(hash(1)));
    let (monitor, action) = monitor.step(creation(1));
    assert_eq!(action, Action::BindContract(address(0xa1)));
    let (monitor, action) = monitor.step(Event::Bound(Ok(())));
    assert_eq!(action, Action::QueryName(address(0xa1)));
    let (monitor, action) = monitor.step(Event::Name(Ok(String::from("Foo"))));
    assert_eq!(action, Action::QuerySupply(address(0xa1)));
    let raw = Uint256::from_u128(2_000_000_000_000_000_000_000);
    let (monitor, action) = monitor.step(Event::Supply(Ok(raw)));
    let record = match action {
        Action::Report(record) => record,
        other => panic!("no record: {:?}", other),
    };
    assert_eq!(record.creation_tx_hash, hash(1));
    assert_eq!(record.contract_address, address(0xa1));
    assert_eq!(record.name, "Foo");
    assert_eq!(record.supply, raw);
    assert_eq!(record.scaled_supply(), (Uint256::from_u128(2000), 0));
    let whole = record.scaled_supply().0.to_u128().unwrap() as f64;
    let rest = record.scaled_supply().1 as f64 / 1e18;
    assert_eq!(whole + rest, 2000.0);
    assert!(record.render().ends_with("\nToken Name: Foo\nTotal Supply: 2000\n"));
    assert_eq!(*monitor.current_phase(), Phase::Polling);
    let (monitor, action) = monitor.step(Event::Reported);
    assert_eq!(action, Action::FetchLatestBlock);
    assert_eq!(*monitor.current_phase(), Phase::Polling);
}

#[test]
fn contract_without_name_yields_no_record() {
    let (monitor, _) = scanning(vec![entry(1, 0xa1)]);
    let (monitor, _) = monitor.step(creation(1));
    let (monitor, action) = monitor.step(Event::Bound(Ok(())));
    assert_eq!(action, Action::QueryName(address(0xa1)));
    let (monitor, action) = monitor.step(Event::Name(Err(ClientError::AbiMismatch)));
    assert_eq!(action, Action::FetchLatestBlock);
    assert_eq!(*monitor.current_phase(), Phase::Polling);
    let (monitor, action) = monitor.step(Event::Block(Ok(block(11))));
    assert_eq!(
        action,
        Action::FetchLogs(LogFilter { block_hash: hash(0xb0), first_topic: TopicPredicate::Any })
    );
    assert_eq!(monitor.last_processed(), 11);
}

#[test]
fn second_creation_is_not_tried_after_the_first_failed() {
    let (monitor, action) = scanning(vec![entry(1, 0xa1), entry(2, 0xa2)]);
    assert_eq!(action, Action::FetchTransaction(hash(1)));
    let (monitor, action) = monitor.step(creation(1));
    assert_eq!(action, Action::BindContract(address(0xa1)));
    let (monitor, _) = monitor.step(Event::Bound(Ok(())));
    let (monitor, action) = monitor.step(Event::Name(Err(ClientError::DecodeError)));
    assert_eq!(action, Action::FetchLatestBlock);
    assert_eq!(*monitor.current_phase(), Phase::Polling);
    let (monitor, action) = monitor.step(Event::Block(Ok(block(10))));
    assert_eq!(action, Action::FetchLatestBlock);
    assert_eq!(*monitor.current_phase(), Phase::Polling);
}

#[test]
fn second_creation_is_not_tried_after_the_first_was_reported() {
    let (monitor, _) = scanning(vec![entry(1, 0xa1), entry(2, 0xa2)]);
    let (monitor, _) = monitor.step(creation(1));
    let (monitor, _) = monitor.step(Event::Bound(Ok(())));
    let (monitor, _) = monitor.step(Event::Name(Ok(String::from("First"))));
    let (monitor, action) = monitor.step(Event::Supply(Ok(Uint256::from_u128(1))));
    assert_eq!(
        action,
        Action::Report(TokenRecord::new(
            hash(1),
            address(0xa1),
            String::from("First"),
            Uint256::from_u128(1)
        ))
    );
    let (monitor, action) = monitor.step(Event::Reported);
    assert_eq!(action, Action::FetchLatestBlock);
    assert_eq!(*monitor.current_phase(), Phase::Polling);
}

#[test]
fn failed_supply_query_gives_the_block_up() {
    let (monitor, _) = scanning(vec![entry(1, 0xa1), entry(2, 0xa2)]);
    let (monitor, _) = monitor.step(creation(1));
    let (monitor, _) = monitor.step(Event::Bound(Ok(())));
    let (monitor, action) = monitor.step(Event::Name(Ok(String::from("Foo"))));
    assert_eq!(action, Action::QuerySupply(address(0xa1)));
    assert_eq!(
        *monitor.current_phase(),
        Phase::QueryingSupply {
            creation_tx_hash: hash(1),
            contract_address: address(0xa1),
            name: String::from("Foo")
        }
    );
    let (monitor, action) = monitor.step(Event::Supply(Err(ClientError::AbiMismatch)));
    assert_eq!(action, Action::FetchLatestBlock);
    assert_eq!(*monitor.current_phase(), Phase::Polling);
}

#[test]
fn unresolved_transactions_are_passed_over() {
    let (monitor, _) = scanning(vec![entry(1, 0xa1), entry(2, 0xa2), entry(3, 0xa3)]);
    let (monitor, action) = monitor.step(Event::Transaction(Ok(None)));
    assert_eq!(action, Action::FetchTransaction(hash(2)));
    let (monitor, action) = monitor.step(Event::Transaction(Err(ClientError::NodeUnavailable)));
    assert_eq!(action, Action::FetchTransaction(hash(3)));
    let (monitor, action) = monitor.step(creation(3));
    assert_eq!(action, Action::BindContract(address(0xa3)));
    let (_, action) = monitor.step(Event::Bound(Ok(())));
    assert_eq!(action, Action::QueryName(address(0xa3)));
}

#[test]
fn transaction_with_destination_is_no_candidate() {
    let (monitor, _) = scanning(vec![entry(1, 0xa1), entry(2, 0xa2)]);
    let (monitor, action) = monitor.step(transfer(1));
    assert_eq!(action, Action::FetchTransaction(hash(2)));
    assert_eq!(
        *monitor.current_phase(),
        Phase::Resolving { entries: vec![entry(1, 0xa1), entry(2, 0xa2)], next: 1 }
    );
    let (monitor, action) = monitor.step(transfer(2));
    assert_eq!(action, Action::FetchLatestBlock);
    assert_eq!(*monitor.current_phase(), Phase::Polling);
}

#[test]
fn failed_binding_moves_on_to_the_next_entry() {
    let (monitor, _) = scanning(vec![entry(1, 0xa1), entry(2, 0xa2)]);
    let (monitor, action) = monitor.step(creation(1));
    assert_eq!(action, Action::BindContract(address(0xa1)));
    let (monitor, action) = monitor.step(Event::Bound(Err(ClientError::DecodeError)));
    assert_eq!(action, Action::FetchTransaction(hash(2)));
    let (monitor, action) = monitor.step(creation(2));
    assert_eq!(action, Action::BindContract(address(0xa2)));
    let (monitor, action) = monitor.step(Event::Bound(Err(ClientError::DecodeError)));
    assert_eq!(action, Action::FetchLatestBlock);
    assert_eq!(*monitor.current_phase(), Phase::Polling);
}

#[test]
fn answer_that_was_not_asked_for_repeats_the_request() {
    let (monitor, _) = scanning(vec![entry(1, 0xa1)]);
    let (monitor, action) = monitor.step(Event::Name(Ok(String::from("Foo"))));
    assert_eq!(action, Action::FetchTransaction(hash(1)));
    assert_eq!(*monitor.current_phase(), Phase::Resolving { entries: vec![entry(1, 0xa1)], next: 0 });
    let (monitor, action) = monitor.step(Event::Block(Ok(block(11))));
    assert_eq!(action, Action::FetchTransaction(hash(1)));
    assert_eq!(monitor.last_processed(), 10);
    let (monitor, _) = monitor.step(creation(1));
    let (monitor, action) = monitor.step(Event::Reported);
    assert_eq!(action, Action::BindContract(address(0xa1)));
    let (monitor, _) = monitor.step(Event::Bound(Ok(())));
    let (monitor, action) = monitor.step(Event::Supply(Ok(Uint256::from_u128(5))));
    assert_eq!(action, Action::QueryName(address(0xa1)));
    assert_eq!(monitor.pending(), Action::QueryName(address(0xa1)));
    let (monitor, _) = monitor.step(Event::Name(Ok(String::from("Foo"))));
    let (monitor, action) = monitor.step(Event::Logs(Ok(Vec::new())));
    assert_eq!(action, Action::QuerySupply(address(0xa1)));
    assert_eq!(monitor.pending(), Action::QuerySupply(address(0xa1)));
}

#[test]
fn logs_that_were_not_asked_for_are_not_scanned() {
    let monitor = Monitor::new();
    let (monitor, action) = monitor.step(Event::Logs(Ok(vec![entry(1, 0xa1)])));
    assert_eq!(action, Action::FetchLatestBlock);
    assert_eq!(*monitor.current_phase(), Phase::Polling);
    let (monitor, _) = monitor.step(Event::Block(Ok(block(3))));
    let (monitor, action) = monitor.step(Event::Bound(Ok(())));
    assert_eq!(
        action,
        Action::FetchLogs(LogFilter { block_hash: hash(0xb0), first_topic: TopicPredicate::Any })
    );
    assert_eq!(monitor.pending(), action);
}

#[test]
fn pending_request_follows_the_phase() {
    let (monitor, _) = scanning(vec![entry(1, 0xa1), entry(2, 0xa2)]);
    assert_eq!(monitor.pending(), Action::FetchTransaction(hash(1)));
    let (monitor, _) = monitor.step(transfer(1));
    assert_eq!(monitor.pending(), Action::FetchTransaction(hash(2)));
    let (monitor, _) = monitor.step(creation(2));
    assert_eq!(monitor.pending(), Action::BindContract(address(0xa2)));
}
