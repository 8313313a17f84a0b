use payment_engine::amount::Amount;
use payment_engine::engine::PaymentEngine;
use payment_engine::io::{account_rows, CsvRecord};
use payment_engine::model::ClientId;
use rust_decimal::Decimal;
use std::collections::HashMap;
use std::str::FromStr;

#[derive(Debug, PartialEq)]
struct Row {
    available: Amount,
    held: Amount,
    total: Amount,
    locked: bool,
}

fn dec(text: &str) -> Amount {
    let d = Decimal::from_str(text).unwrap();
    Amount::new(d.mantissa(), d.scale()).unwrap()
}

fn row(available: Amount, held: Amount, locked: bool) -> Row {
    Row { available, held, total: available.checked_add(held).unwrap(), locked }
}

/// One CSV row turned into a record by column name, as the deserializer does:
/// a row without the id columns, or with an id or amount that does not parse,
/// is malformed.
fn parse_row(headers: &csv::StringRecord, row: &csv::StringRecord) -> Result<CsvRecord, String> {
    let field = |name: &str| headers.iter().position(|h| h == name).and_then(|i| row.get(i));
    let kind = field("type").ok_or("missing field `type`")?.to_string();
    let client = field("client")
        .ok_or("missing field `client`")?
        .parse::<ClientId>()
        .map_err(|e| e.to_string())?;
    let tx = field("tx").ok_or("missing field `tx`")?.parse::<u32>().map_err(|e| e.to_string())?;
    let amount = match field("amount") {
        None | Some("") => None,
        Some(text) => {
            let d = Decimal::from_str(text).map_err(|e| e.to_string())?;
            Some(Amount::new(d.mantissa(), d.scale()).ok_or("amount out of range")?)
        },
    };
    Ok(CsvRecord { kind, client, tx, amount })
}

/// Runs CSV text through the whole pipeline (read -> convert -> engine ->
/// output rows) and returns the output keyed by client id plus every error
/// reported along the way.
fn run_pipeline(input: &str) -> (HashMap<ClientId, Row>, Vec<String>) {
    let mut engine = PaymentEngine::new();
    let mut errors = Vec::new();
    let mut reader = csv::ReaderBuilder::new()
        .trim(csv::Trim::All)
        .flexible(true)
        .from_reader(input.as_bytes());
    let headers = reader.headers().map(|h| h.clone()).unwrap_or_default();
    for result in reader.records() {
        let record = match result.map_err(|e| e.to_string()).and_then(|r| parse_row(&headers, &r)) {
            Ok(record) => record,
            Err(e) => {
                errors.push(e);
                continue;
            },
        };
        if let Err(e) = engine.process_record(record) {
            errors.push(format!("{e:?}"));
        }
    }

    let mut rows = HashMap::new();
    for r in account_rows(engine.store()).unwrap() {
        let previous = rows.insert(
            r.client,
            Row { available: r.available, held: r.held, total: r.total, locked: r.locked },
        );
        assert!(previous.is_none(), "client {} appears twice in output", r.client);
    }
    (rows, errors)
}

const SPEC_EXAMPLE: &str = "\
type, client, tx, amount
deposit, 1, 1, 1.0
deposit, 2, 2, 2.0
deposit, 1, 3, 2.0
withdrawal, 1, 4, 1.5
withdrawal, 2, 5, 3.0
";

const FRAUD_FLOW: &str = "\
type,client,tx,amount
deposit,1,1,5.0
withdrawal,1,2,5.0
dispute,1,1,
chargeback,1,1,
";

const DISPUTE_RESOLVE_REDISPUTE_CHARGEBACK: &str = "\
type,client,tx,amount
deposit,1,1,3.0
dispute,1,1,
resolve,1,1,
dispute,1,1,
chargeback,1,1,
";

const WHITESPACE_HEAVY: &str = "\
type ,  client,tx ,amount
  deposit ,1 ,  1,  2.0
deposit,  1,2 ,1.5
 withdrawal , 1, 3 ,   2.0
dispute, 1 ,1
";

const MALFORMED_ROWS: &str = "\
type,client,tx,amount
deposit,1,1,1.0
transfer,1,2,5.0
withdrawal,1,3,
junk
deposit,abc,4,1.0
deposit,2,5,2.0
";

const LOCKED_ACCOUNT: &str = "\
type,client,tx,amount
deposit,1,1,5.0
deposit,1,2,3.0
dispute,1,1,
chargeback,1,1,
deposit,1,3,10.0
withdrawal,1,4,1.0
dispute,1,2,
";

const IGNORE_RULES: &str = "\
type,client,tx,amount
deposit,1,1,5.00001
withdrawal,1,2,1.0
dispute,1,99,
dispute,2,1,
dispute,1,2,
dispute,1,1,
dispute,1,1,
resolve,1,1,
chargeback,1,1,
resolve,1,1,
dispute,1,1,
chargeback,1,1,
chargeback,1,1,
resolve,1,1,
deposit,3,10,0
deposit,4,11,-2.0
deposit,5,1,7.0
";

#[test]
fn scenario_1_spec_example() {
    let (accounts, _) = run_pipeline(SPEC_EXAMPLE);

    assert_eq!(
        accounts,
        HashMap::from([
            (1, row(dec("1.5"), dec("0"), false)),
            (2, row(dec("2"), dec("0"), false)),
        ])
    );
}

#[test]
fn scenario_2_fraud_flow_leaves_negative_available_and_locks() {
    let (accounts, _) = run_pipeline(FRAUD_FLOW);

    assert_eq!(accounts, HashMap::from([(1, row(dec("-5"), dec("0"), true))]));
}

#[test]
fn scenario_3_dispute_resolve_redispute_chargeback() {
    let (accounts, _) = run_pipeline(DISPUTE_RESOLVE_REDISPUTE_CHARGEBACK);

    assert_eq!(accounts, HashMap::from([(1, row(dec("0"), dec("0"), true))]));
}

#[test]
fn scenario_4_whitespace_heavy_input_and_short_dispute_row() {
    let (accounts, _) = run_pipeline(WHITESPACE_HEAVY);

    assert_eq!(accounts, HashMap::from([(1, row(dec("-0.5"), dec("2"), false))]));
}

#[test]
fn scenario_5_malformed_rows_are_skipped_and_reported() {
    let (accounts, errors) = run_pipeline(MALFORMED_ROWS);

    assert_eq!(
        accounts,
        HashMap::from([
            (1, row(dec("1"), dec("0"), false)),
            (2, row(dec("2"), dec("0"), false)),
        ])
    );
    // unknown type, missing amount, junk line, unparseable client id
    assert_eq!(errors.len(), 4, "expected 4 skipped rows, got: {errors:?}");
}

#[test]
fn scenario_6_locked_account_blocks_new_funds_but_disputes_still_process() {
    let (accounts, _) = run_pipeline(LOCKED_ACCOUNT);

    assert_eq!(accounts, HashMap::from([(1, row(dec("0"), dec("3"), true))]));
}

#[test]
fn scenario_7_every_ignore_rule_end_to_end() {
    let (accounts, _) = run_pipeline(IGNORE_RULES);

    assert_eq!(
        accounts,
        HashMap::from([
            (1, row(dec("-1"), dec("0"), true)),
            (3, row(dec("0"), dec("0"), false)),
            (4, row(dec("0"), dec("0"), false)),
            (5, row(dec("0"), dec("0"), false)),
        ])
    );
}

#[test]
fn header_only_input_produces_header_only_output() {
    let (accounts, _) = run_pipeline("type,client,tx,amount\n");

    assert_eq!(accounts, HashMap::new());
}

#[test]
fn empty_input_produces_header_only_output() {
    let (accounts, _) = run_pipeline("");

    assert_eq!(accounts, HashMap::new());
}
