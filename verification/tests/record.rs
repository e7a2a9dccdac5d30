use erc20_monitor::ident::Address;
use erc20_monitor::ident::Hash256;
use erc20_monitor::record::TokenRecord;
use erc20_monitor::uint::Uint256;

fn counting_hash() -> Hash256 {
    let mut bytes = [0u8; 32];
    for (i, b) in bytes.iter_mut().enumerate() {
        *b = i as u8;
    }
    Hash256::new(bytes)
}

fn sample_address() -> Address {
    let mut bytes = [0u8; 20];
    for (i, b) in bytes.iter_mut().enumerate() {
        *b = 0xec + i as u8;
    }
    Address::new(bytes)
}

fn sample(name: &str, raw: u128) -> TokenRecord {
    TokenRecord::new(counting_hash(), sample_address(), String::from(name), Uint256::from_u128(raw))
}

const HEAD: &str = "Transaction Hash: 0x000102030405060708090a0b0c0d0e0f101112131415161718191a1b1c1d1e1f\nContract Address: 0xecedeeeff0f1f2f3f4f5f6f7f8f9fafbfcfdfeff\n";

fn text_of(name: &str, supply: &str) -> String {
    format!("{}Token Name: {}\nTotal Supply: {}\n", HEAD, name, supply)
}

#[test]
fn rendering_has_four_labelled_lines() {
    let record = sample("Foo", 2_000_000_000_000_000_000_000);
    assert_eq!(
        record.render(),
        "Transaction Hash: 0x000102030405060708090a0b0c0d0e0f101112131415161718191a1b1c1d1e1f\nContract Address: 0xecedeeeff0f1f2f3f4f5f6f7f8f9fafbfcfdfeff\nToken Name: Foo\nTotal Supply: 2000\n"
    );
}

#[test]
fn rendering_scales_the_supply_by_eighteen_places() {
    assert_eq!(sample("T", 0).render(), text_of("T", "0"));
    assert_eq!(sample("T", 1).render(), text_of("T", "0.000000000000000001"));
    assert_eq!(sample("T", 1_500_000_000_000_000_000).render(), text_of("T", "1.5"));
    assert_eq!(sample("T", 999_999_999_999_999_999).render(), text_of("T", "0.999999999999999999"));
    assert_eq!(sample("T", 1_000_000_000_000_000_000).render(), text_of("T", "1"));
    assert_eq!(sample("T", 10_000_000_000_000_000_010).render(), text_of("T", "10.00000000000000001"));
    assert_eq!(sample("T", u128::MAX).render(), text_of("T", "340282366920938463463.374607431768211455"));
}

#[test]
fn rendering_of_the_largest_supply() {
    let record = TokenRecord::new(
        counting_hash(),
        sample_address(),
        String::from("Max"),
        Uint256::from_limbs([u64::MAX; 4]),
    );
    assert_eq!(
        record.render(),
        text_of(
            "Max",
            "115792089237316195423570985008687907853269984665640564039457.584007913129639935"
        )
    );
    assert_eq!(TokenRecord::parse(&record.render()), Some(record));
}

#[test]
fn parsing_a_rendering_recovers_the_record() {
    let record = sample("Foo", 2_000_000_000_000_000_000_000);
    let parsed = TokenRecord::parse(&record.render()).unwrap();
    assert_eq!(parsed.creation_tx_hash, counting_hash());
    assert_eq!(parsed.contract_address, sample_address());
    assert_eq!(parsed.name, "Foo");
    assert_eq!(parsed.supply, Uint256::from_u128(2_000_000_000_000_000_000_000));
    assert_eq!(parsed, record);
}

#[test]
fn parsing_recovers_supplies_with_decimal_places() {
    for raw in [
        0u128,
        1,
        9,
        10,
        123_456_789,
        1_000_000_000_000_000_000,
        1_500_000_000_000_000_000,
        999_999_999_999_999_999,
        1_000_000_000_000_000_001,
        12_345_678_901_234_567_890_123_456_789,
        u128::MAX,
    ] {
        let record = sample("Token", raw);
        assert_eq!(TokenRecord::parse(&record.render()), Some(record));
    }
}

#[test]
fn parsing_recovers_names_of_any_shape() {
    for name in [
        "",
        " ",
        "Foo Bar",
        "42",
        "3.14",
        "Token 7",
        "ends with point.",
        "line\nbreak",
        "\n",
        "A\nTotal Supply: 12\n",
        "A\nTotal Supply: 12",
        "\nTotal Supply: ",
        "Total Supply: 1.5",
        "Ünïcödé \u{1F680}",
        "Transaction Hash: 0x00",
    ] {
        let record = sample(name, 1_500_000_000_000_000_000);
        let text = record.render();
        assert_eq!(text, text_of(name, "1.5"));
        let parsed = TokenRecord::parse(&text).unwrap();
        assert_eq!(parsed.name, name);
        assert_eq!(parsed, record);
    }
}

#[test]
fn parsing_reads_a_written_text() {
    let parsed = TokenRecord::parse(&text_of("Foo", "0.25")).unwrap();
    assert_eq!(parsed, sample("Foo", 250_000_000_000_000_000));
}

#[test]
fn parsing_accepts_only_exact_renderings() {
    let good = text_of("Foo", "2000");
    assert!(TokenRecord::parse(&good).is_some());
    assert_eq!(TokenRecord::parse(""), None);
    assert_eq!(TokenRecord::parse("\n"), None);
    assert_eq!(TokenRecord::parse(HEAD), None);
    assert_eq!(TokenRecord::parse(&good[..good.len() - 1]), None);
    assert_eq!(TokenRecord::parse(&format!("{}\n", good)), None);
    assert_eq!(TokenRecord::parse(&format!(" {}", good)), None);
    assert_eq!(TokenRecord::parse(&good.replace("0x0001", "0x0A01")), None);
    assert_eq!(TokenRecord::parse(&good.replace("0x0001", "0xg001")), None);
    assert_eq!(TokenRecord::parse(&good.replace("0x0001", "0X0001")), None);
    assert_eq!(TokenRecord::parse(&good.replace("Transaction", "transaction")), None);
    assert_eq!(TokenRecord::parse(&good.replace("\nContract", " Contract")), None);
    assert_eq!(TokenRecord::parse(&good.replace("Token Name", "Token name")), None);
    assert_eq!(TokenRecord::parse(&good.replace("Total Supply: ", "Total Supply:")), None);
    assert_eq!(TokenRecord::parse(&good.replace("Total Supply", "Supply")), None);
}

#[test]
fn parsing_accepts_only_the_one_text_of_a_supply() {
    for supply in [
        "", ".", "007", "00", "01.5", "1.50", "1.", ".5", "1.0", "0.0", "1..5", "1.5.5", "1,5",
        "+1", "-1", "1e3", " 1", "1 ", "0x10", "0.0000000000000000001",
        "115792089237316195423570985008687907853269984665640564039457.584007913129639936",
        "115792089237316195423570985008687907853269984665640564039458",
        "1000000000000000000000000000000000000000000000000000000000000000000000000000000",
    ] {
        assert_eq!(TokenRecord::parse(&text_of("Foo", supply)), None, "supply {:?}", supply);
    }
    for supply in ["0", "7", "1.5", "0.000000000000000001", "10", "100.01"] {
        assert!(TokenRecord::parse(&text_of("Foo", supply)).is_some(), "supply {:?}", supply);
    }
}

#[test]
fn scaled_supply_splits_tokens_and_rest() {
    let record = sample("Foo", 1_234_567_890_123_456_789_012);
    assert_eq!(record.scaled_supply(), (Uint256::from_u128(1234), 567_890_123_456_789_012));
    assert_eq!(sample("Foo", 0).scaled_supply(), (Uint256::from_u128(0), 0));
    assert_eq!(
        sample("Foo", 999_999_999_999_999_999).scaled_supply(),
        (Uint256::from_u128(0), 999_999_999_999_999_999)
    );
}

#[test]
fn new_keeps_the_four_values() {
    let record = sample("Foo", 5);
    assert_eq!(record.creation_tx_hash, counting_hash());
    assert_eq!(record.contract_address, sample_address());
    assert_eq!(record.name, "Foo");
    assert_eq!(record.supply, Uint256::from_u128(5));
}
