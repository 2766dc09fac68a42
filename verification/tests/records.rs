use ledger::decimal::{format_unsigned, parse_unsigned};
use ledger::engine::Engine;
use ledger::money::{Money, ParseError};
use ledger::record::{
    parse_client, parse_kind, parse_record, parse_transaction, parse_transaction_id, trim_fields,
    Kind, RecordError,
};
use ledger::report::{account_fields, format_truth, header_fields};
use ledger::types::{Account, EngineError, Transaction};
use ledger::{print_accounts, process_records, process_transactions, run, RunError};

fn amount(text: &str) -> Money {
    Money::parse(text).unwrap()
}

fn record(fields: &[&str]) -> Vec<String> {
    fields.iter().map(|field| field.to_string()).collect()
}

#[test]
fn unsigned_literals_are_digits_after_an_optional_plus() {
    assert_eq!(parse_unsigned("0", 10), Some(0));
    assert_eq!(parse_unsigned("+7", 10), Some(7));
    assert_eq!(parse_unsigned("0010", 10), Some(10));
    assert_eq!(parse_unsigned("11", 10), None);
    assert_eq!(parse_unsigned("18446744073709551615", u64::MAX), Some(u64::MAX));
    assert_eq!(parse_unsigned("18446744073709551616", u64::MAX), None);
    for text in ["", "+", "-0", "-1", "1.0", " 1", "1 ", "1_0", "++1", "0x1", "१"] {
        assert_eq!(parse_unsigned(text, u64::MAX), None, "{:?}", text);
    }
}

#[test]
fn ids_are_read_as_std_reads_them() {
    let given = [
        "0", "1", "+1", "007", "65535", "65536", "4294967295", "4294967296", "", "+", "-0", "a",
        "1 ", "9999999999999999999999",
    ];
    for text in given {
        assert_eq!(parse_client(text), text.parse::<u16>().ok(), "{:?}", text);
        assert_eq!(parse_transaction_id(text), text.parse::<u32>().ok(), "{:?}", text);
    }
}

#[test]
fn unsigned_numbers_are_written_without_leading_zeros() {
    assert_eq!(format_unsigned(0), "0");
    assert_eq!(format_unsigned(7), "7");
    assert_eq!(format_unsigned(65_535), "65535");
    assert_eq!(format_unsigned(u64::MAX), u64::MAX.to_string());
}

#[test]
fn kinds_are_the_five_lower_case_names() {
    assert_eq!(parse_kind("deposit"), Some(Kind::Deposit));
    assert_eq!(parse_kind("withdrawal"), Some(Kind::Withdrawal));
    assert_eq!(parse_kind("dispute"), Some(Kind::Dispute));
    assert_eq!(parse_kind("resolve"), Some(Kind::Resolve));
    assert_eq!(parse_kind("chargeback"), Some(Kind::Chargeback));
    let unknown = ["", "Deposit", "DEPOSIT", "deposits", "deposi", " deposit", "withdraw", "dépôt"];
    for word in unknown {
        assert_eq!(parse_kind(word), None, "{:?}", word);
    }
}

#[test]
fn a_record_of_four_fields_is_a_transaction() {
    assert_eq!(
        parse_transaction(&["deposit", "1", "10", "2.0001"]),
        Ok(Transaction::Deposit { id: 10, client: 1, amount: amount("2.0001") })
    );
    assert_eq!(
        parse_transaction(&["withdrawal", "65535", "4294967295", "-3"]),
        Ok(Transaction::Withdrawal { id: u32::MAX, client: u16::MAX, amount: amount("-3") })
    );
    assert_eq!(
        parse_transaction(&["dispute", "2", "6", ""]),
        Ok(Transaction::Dispute { client: 2, deposit: 6 })
    );
    assert_eq!(
        parse_transaction(&["resolve", "2", "6", "ignored"]),
        Ok(Transaction::Resolve { client: 2, deposit: 6 })
    );
    assert_eq!(
        parse_transaction(&["chargeback", "+2", "06", ""]),
        Ok(Transaction::Chargeback { client: 2, deposit: 6 })
    );
}

#[test]
fn a_record_with_another_number_of_fields_is_refused() {
    assert_eq!(parse_transaction(&[]), Err(RecordError::FieldCount));
    assert_eq!(parse_transaction(&["dispute", "2", "6"]), Err(RecordError::FieldCount));
    assert_eq!(parse_transaction(&["deposit", "2", "6", "1", ""]), Err(RecordError::FieldCount));
    assert_eq!(parse_transaction(&["nothing", "x", "y"]), Err(RecordError::FieldCount));
}

#[test]
fn an_unknown_kind_is_refused_before_the_other_fields_are_read() {
    assert_eq!(parse_transaction(&["Deposit", "1", "1", "1"]), Err(RecordError::UnknownType));
    assert_eq!(parse_transaction(&["transfer", "x", "y", "z"]), Err(RecordError::UnknownType));
    assert_eq!(parse_transaction(&["", "1", "1", "1"]), Err(RecordError::UnknownType));
}

#[test]
fn the_first_field_that_cannot_be_read_names_the_error() {
    assert_eq!(
        parse_transaction(&["deposit", "x", "y", "z"]),
        Err(RecordError::InvalidTransactionId)
    );
    assert_eq!(parse_transaction(&["deposit", "x", "1", "z"]), Err(RecordError::InvalidClient));
    assert_eq!(
        parse_transaction(&["deposit", "1", "1", "z"]),
        Err(RecordError::InvalidAmount(ParseError::Malformed))
    );
    assert_eq!(
        parse_transaction(&["withdrawal", "1", "1", ""]),
        Err(RecordError::InvalidAmount(ParseError::Malformed))
    );
    assert_eq!(
        parse_transaction(&["withdrawal", "1", "1", "1.00001"]),
        Err(RecordError::InvalidAmount(ParseError::TooPrecise))
    );
    assert_eq!(
        parse_transaction(&["deposit", "1", "1", "1e30"]),
        Err(RecordError::InvalidAmount(ParseError::Malformed))
    );
    assert_eq!(
        parse_transaction(&["deposit", "1", "1", "1000000000000000000000"]),
        Err(RecordError::InvalidAmount(ParseError::OutOfRange))
    );
    assert_eq!(parse_transaction(&["dispute", "x", "y", ""]), Err(RecordError::InvalidClient));
    assert_eq!(
        parse_transaction(&["resolve", "1", "y", ""]),
        Err(RecordError::InvalidTransactionId)
    );
    assert_eq!(
        parse_transaction(&["chargeback", "65536", "1", ""]),
        Err(RecordError::InvalidClient)
    );
    assert_eq!(
        parse_transaction(&["chargeback", "1", "4294967296", ""]),
        Err(RecordError::InvalidTransactionId)
    );
}

#[test]
fn fields_are_trimmed_before_they_are_read() {
    let given = record(&["  deposit", "\t1 ", " 10\u{a0}", " 2.5 \n"]);
    assert_eq!(trim_fields(&given), vec!["deposit", "1", "10", "2.5"]);
    assert_eq!(
        parse_record(&given),
        Ok(Transaction::Deposit { id: 10, client: 1, amount: amount("2.5") })
    );
    assert_eq!(parse_transaction(&["  deposit", "1", "10", "2.5"]), Err(RecordError::UnknownType));
    assert_eq!(
        parse_record(&record(&["deposit", "1", "1 0", "2.5"])),
        Err(RecordError::InvalidTransactionId)
    );
    assert_eq!(trim_fields(&record(&[" ", "", "a b"])), vec!["", "", "a b"]);
}

#[test]
fn records_are_applied_in_order_and_each_outcome_is_handed_back() {
    let mut engine = Engine::new();
    let records = vec![
        record(&["deposit", "5", "1", "15"]),
        record(&["withdrawal", "5", "4", "10"]),
        record(&["withdrawal", "5", "5", "10"]),
        record(&["dispute", "5", "9", ""]),
    ];
    assert_eq!(
        process_records(&mut engine, &records),
        Ok(vec![
            Ok(()),
            Ok(()),
            Err(EngineError::InsufficientFunds),
            Err(EngineError::DepositNotFound)
        ])
    );
    let accounts = engine.get_accounts();
    assert_eq!(accounts.len(), 1);
    assert_eq!(accounts[0].available, amount("5"));
}

#[test]
fn the_run_stops_at_the_first_record_that_is_no_transaction() {
    let mut engine = Engine::new();
    let records = vec![
        record(&["deposit", "5", "1", "15"]),
        record(&["deposit", "5", "2", "1.23456"]),
        record(&["deposit", "5", "3", "15"]),
        record(&["nothing", "5", "3", "15"]),
    ];
    assert_eq!(
        process_records(&mut engine, &records),
        Err(RecordError::InvalidAmount(ParseError::TooPrecise))
    );
    let accounts = engine.get_accounts();
    assert_eq!(accounts.len(), 1);
    assert_eq!(accounts[0].available, amount("15"));
}

#[test]
fn the_header_of_the_log_is_passed_over() {
    let mut engine = Engine::new();
    let outcomes = process_transactions(&mut engine, b"a,b,c,d\ndeposit,1,1,2\n").unwrap();
    assert_eq!(outcomes, vec![Ok(())]);
    assert_eq!(engine.get_accounts()[0].available, amount("2"));
    let mut empty = Engine::new();
    assert_eq!(process_transactions(&mut empty, b""), Ok(vec![]));
    assert_eq!(process_transactions(&mut empty, b"type,client,tx,amount\n"), Ok(vec![]));
    assert!(empty.get_accounts().is_empty());
}

#[test]
fn quoted_fields_are_read_by_the_rules_of_the_format() {
    let mut engine = Engine::new();
    let log = b"type,client,tx,amount\n\"deposit\",\" 1\",1,\"2.5\"\r\n";
    let outcomes = process_transactions(&mut engine, log).unwrap();
    assert_eq!(outcomes, vec![Ok(())]);
    assert_eq!(engine.get_accounts()[0].available, amount("2.5"));
}

#[test]
fn a_log_that_is_no_table_fails_the_run() {
    let mut output = b"kept".to_vec();
    let log = b"type,client,tx,amount\ndeposit,1,1,2\ndispute,1,1\ndeposit,1,2,2\n";
    match run(log, &mut output) {
        Err(RunError::Csv(message)) => assert!(message.contains("3 fields"), "{}", message),
        other => panic!("{:?}", other),
    }
    assert_eq!(output, b"kept");
    let mut engine = Engine::new();
    assert!(matches!(process_transactions(&mut engine, log), Err(RunError::Csv(_))));
    assert_eq!(engine.get_accounts()[0].available, amount("2"));
    let garbled = b"type,client,tx,amount\ndeposit,1,1,\xff\n";
    assert!(matches!(run(garbled, &mut output), Err(RunError::Csv(_))));
    assert_eq!(output, b"kept");
}

#[test]
fn a_record_that_is_no_transaction_fails_the_run() {
    let mut output = Vec::new();
    assert_eq!(
        run(b"type,client,tx,amount\ndeposit,1,1,2\nrefund,1,1,\n", &mut output),
        Err(RunError::Record(RecordError::UnknownType))
    );
    assert_eq!(
        run(b"type,client,tx\ndispute,1,1\n", &mut output),
        Err(RunError::Record(RecordError::FieldCount))
    );
    assert_eq!(
        run(b"type,client,tx,amount\ndeposit,70000,1,2\n", &mut output),
        Err(RunError::Record(RecordError::InvalidClient))
    );
    assert_eq!(
        run(b"type,client,tx,amount\ndeposit,1,-1,2\n", &mut output),
        Err(RunError::Record(RecordError::InvalidTransactionId))
    );
    assert_eq!(
        run(b"type,client,tx,amount\ndeposit,1,1,2.00001\n", &mut output),
        Err(RunError::Record(RecordError::InvalidAmount(ParseError::TooPrecise)))
    );
    assert!(output.is_empty());
}

#[test]
fn the_first_failure_in_the_log_is_the_one_reported() {
    let mut output = Vec::new();
    assert_eq!(
        run(b"type,client,tx,amount\nrefund,1,1,2\ndispute,1,1\n", &mut output),
        Err(RunError::Record(RecordError::UnknownType))
    );
    assert!(matches!(
        run(b"type,client,tx,amount\ndispute,1,1\nrefund,1,1,2\n", &mut output),
        Err(RunError::Csv(_))
    ));
}

#[test]
fn the_run_hands_back_what_became_of_each_transaction() {
    let mut output = Vec::new();
    let log = b"type,client,tx,amount\n\
        deposit,3,7,2\n\
        deposit,3,7,4\n\
        dispute,3,7,\n\
        chargeback,3,7,\n\
        deposit,3,9,30\n";
    assert_eq!(
        run(log, &mut output),
        Ok(vec![
            Ok(()),
            Err(EngineError::DuplicateTransaction),
            Ok(()),
            Ok(()),
            Err(EngineError::LockedAccount)
        ])
    );
    assert_eq!(
        String::from_utf8(output).unwrap(),
        "client,available,held,total,locked\n3,0,0,0,true\n"
    );
}

#[test]
fn a_run_without_transactions_reports_the_header_alone() {
    let mut output = Vec::new();
    assert_eq!(run(b"", &mut output), Ok(vec![]));
    assert_eq!(output, b"client,available,held,total,locked\n");
}

#[test]
fn the_report_is_appended_to_what_the_output_holds() {
    let mut output = b"before\n".to_vec();
    run(b"type,client,tx,amount\nwithdrawal,8,1,5\n", &mut output).unwrap();
    assert_eq!(
        String::from_utf8(output).unwrap(),
        "before\nclient,available,held,total,locked\n8,0,0,0,false\n"
    );
}

#[test]
fn the_report_has_one_record_for_each_account_in_the_order_given() {
    let first = Account { client: 4, available: amount("-9"), held: amount("13"), locked: false };
    let second =
        Account { client: 65535, available: amount("0.5"), held: amount("0.0001"), locked: true };
    assert_eq!(header_fields(), vec!["client", "available", "held", "total", "locked"]);
    assert_eq!(account_fields(&first), vec!["4", "-9", "13", "4", "false"]);
    assert_eq!(account_fields(&second), vec!["65535", "0.5", "0.0001", "0.5001", "true"]);
    assert_eq!(format_truth(true), "true");
    assert_eq!(format_truth(false), "false");
    let mut output = Vec::new();
    print_accounts(&vec![second, first], &mut output);
    assert_eq!(
        String::from_utf8(output).unwrap(),
        "client,available,held,total,locked\n65535,0.5,0.0001,0.5001,true\n4,-9,13,4,false\n"
    );
}
