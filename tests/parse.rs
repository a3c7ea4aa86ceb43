use mt940::tag_parsers::parse_61_tag;
use mt940::{
    parse_fields, parse_mt940, Amount, AvailableBalance, Balance, Date, DateParseError,
    DebitOrCredit, ExtDebitOrCredit, Field, GrammarRule, Message, ParseError,
    RequiredTagNotFoundError, StatementLine, TransactionTypeIdentificationCode,
    UnexpectedTagError,
};

fn date(year: i32, month: u32, day: u32) -> Date {
    Date { year, month, day }
}

#[test]
fn parse_mt940_fields() {
    let input = "ignored stuff in front
                     blah blah
                     :123:something\r\n\
                     :456:something else\r\n\
                     :789:even with\r\n\
                     new line\r\n\
                     like this\r\n\
                     :012:and then more stuff\r\n\
                     \r\n";

    let expected = vec![
        Field::new("123", "something"),
        Field::new("456", "something else"),
        Field::new("789", "even with\nnew line\nlike this"),
        Field::new("012", "and then more stuff"),
    ];

    let input_parsed = parse_fields(input).unwrap();
    assert_eq!(expected, input_parsed);
}

#[test]
fn fields_without_line_ending_at_the_end() {
    let parsed = parse_fields(":86:hello world").unwrap();
    assert_eq!(parsed, vec![Field::new("86", "hello world")]);
}

#[test]
fn fields_of_empty_text() {
    assert_eq!(parse_fields("").unwrap(), vec![]);
    assert_eq!(parse_fields("no tag in here").unwrap(), vec![]);
}

#[test]
fn fields_refuse_bare_line_feed() {
    let e = parse_fields(":20:abc\n:25:def\r\n").unwrap_err();
    assert_eq!(e.rule, GrammarRule::Fields);
    assert_eq!(e.input, ":20:abc");
}

#[test]
fn fields_refuse_malformed_tag() {
    let e = parse_fields(":20:abc\r\n:2 5:def\r\n").unwrap_err();
    assert_eq!(e.input, ":2 5:def");
}

#[test]
fn fields_refuse_text_after_end() {
    let e = parse_fields(":20:abc\r\n\r\nmore\r\n").unwrap_err();
    assert_eq!(e.input, "more");
}

#[test]
fn tag_61_empty_entry_date() {
    let field = Field::from_str(":61:110701CN50,00NDISNONREF").unwrap();
    let parsed = parse_61_tag(&field).unwrap();
    assert_eq!(parsed.entry_date, None);
}

#[test]
fn tag_61_all_parts() {
    let field = Field::from_str(":61:0910010930RDR62,60FCHGcustomer id//bank id\r\nmore details").unwrap();
    let parsed = parse_61_tag(&field).unwrap();
    let expected = StatementLine {
        value_date: date(2009, 10, 1),
        entry_date: Some(date(2009, 9, 30)),
        ext_debit_credit_indicator: ExtDebitOrCredit::ReverseCredit,
        funds_code: Some("R".to_string()),
        amount: Amount::new(6260, 2),
        transaction_type_ident_code: TransactionTypeIdentificationCode::CHG,
        customer_ref: "customer id".to_string(),
        bank_ref: Some("bank id".to_string()),
        supplementary_details: Some("more details".to_string()),
        information_to_account_owner: None,
    };
    assert_eq!(parsed, expected);
}

#[test]
fn tag_61_unknown_code() {
    let field = Field::from_str(":61:110701C50,00NXYZNONREF").unwrap();
    assert_eq!(
        parse_61_tag(&field),
        Err(ParseError::InvalidTransactionIdentCode("NXYZ".to_string()))
    );
}

#[test]
fn tag_61_entry_date_out_of_range() {
    let field = Field::from_str(":61:1607010230C50,00NDISNONREF").unwrap();
    assert_eq!(
        parse_61_tag(&field),
        Err(ParseError::DateParseError(DateParseError::OutOfRange {
            year: "2016".to_string(),
            month: "02".to_string(),
            day: "30".to_string(),
        }))
    );
}

#[test]
fn fail_no_tag_20() {
    let input_data = "http://example.com";
    let parsed = parse_mt940(input_data);
    let expected = RequiredTagNotFoundError::new("20");
    if let Err(ParseError::RequiredTagNotFoundError(e)) = parsed {
        assert_eq!(e, expected);
        return;
    }
    assert!(false);
}

fn balance(is_intermediate: bool, d: Date, mantissa: i64) -> Balance {
    Balance {
        is_intermediate,
        debit_credit_indicator: DebitOrCredit::Credit,
        date: d,
        iso_currency_code: "EUR".to_string(),
        amount: Amount::new(mantissa, 2),
    }
}

#[test]
fn parse_single_message() {
    let input = "\
        :20:3996-11-11111111\r\n\
        :25:DABADKKK/111111-11111111\r\n\
        :28C:00001/001\r\n\
        :60F:C090924EUR54484,04\r\n\
        :61:0909250925DR583,92NMSC1110030403010139//1234\r\n\
        :62F:C090930EUR53126,94\r\n\
        :64:C090930EUR53189,31\r\n\
        \r\n";
    let expected = vec![Message {
        transaction_ref_no: "3996-11-11111111".to_string(),
        ref_to_related_msg: None,
        account_id: "DABADKKK/111111-11111111".to_string(),
        statement_no: "00001".to_string(),
        sequence_no: Some("001".to_string()),
        opening_balance: balance(false, date(2009, 9, 24), 5448404),
        statement_lines: vec![StatementLine {
            value_date: date(2009, 9, 25),
            entry_date: Some(date(2009, 9, 25)),
            ext_debit_credit_indicator: ExtDebitOrCredit::Debit,
            funds_code: Some("R".to_string()),
            amount: Amount::new(58392, 2),
            transaction_type_ident_code: TransactionTypeIdentificationCode::MSC,
            customer_ref: "1110030403010139".to_string(),
            bank_ref: Some("1234".to_string()),
            supplementary_details: None,
            information_to_account_owner: None,
        }],
        closing_balance: balance(false, date(2009, 9, 30), 5312694),
        closing_available_balance: Some(AvailableBalance {
            debit_credit_indicator: DebitOrCredit::Credit,
            date: date(2009, 9, 30),
            iso_currency_code: "EUR".to_string(),
            amount: Amount::new(5318931, 2),
        }),
        forward_available_balance: None,
        information_to_account_owner: None,
    }];
    assert_eq!(parse_mt940(input).unwrap(), expected);
}

#[test]
fn parse_information_goes_to_statement_lines() {
    let input = "\
        :20:3996-11-11111111\r\n\
        :25:DABADKKK/111111-11111111\r\n\
        :28C:00001/001\r\n\
        :60F:C090924EUR54484,04\r\n\
        :61:0909250925DR583,92NMSC1110030403010139//1234\r\n\
        :86:11100304030101391234\r\n\
        Beneficiary name\r\n\
        Something else\r\n\
        :86:and more\r\n\
        :61:0910010930DR62,60NCHGcustomer id//bank id\r\n\
        :86:Fees according to advice\r\n\
        :62M:C090930EUR53126,94\r\n\
        :86:for the message\r\n\
        \r\n";
    let parsed = parse_mt940(input).unwrap();
    assert_eq!(parsed.len(), 1);
    let m = &parsed[0];
    assert_eq!(m.statement_lines.len(), 2);
    assert_eq!(
        m.statement_lines[0].information_to_account_owner,
        Some("11100304030101391234\nBeneficiary name\nSomething elseand more".to_string())
    );
    assert_eq!(
        m.statement_lines[1].information_to_account_owner,
        Some("Fees according to advice".to_string())
    );
    assert_eq!(m.statement_lines[1].value_date, date(2009, 10, 1));
    assert_eq!(m.statement_lines[1].entry_date, Some(date(2009, 9, 30)));
    assert!(m.closing_balance.is_intermediate);
    assert_eq!(m.information_to_account_owner, Some("for the message".to_string()));
}

#[test]
fn parse_two_messages() {
    let input = "\
        :20:first\r\n\
        :21:related\r\n\
        :25:acc\r\n\
        :28C:7\r\n\
        :60M:D100318EUR1,\r\n\
        :62F:D100318EUR1,5\r\n\
        :65:C100319EUR2,50\r\n\
        :65:C100320EUR3,50\r\n\
        :20:second\r\n\
        :25:acc\r\n\
        :28C:8\r\n\
        :60F:C100318EUR0,12\r\n\
        :62F:C100318EUR0,12\r\n";
    let parsed = parse_mt940(input).unwrap();
    assert_eq!(parsed.len(), 2);
    assert_eq!(parsed[0].ref_to_related_msg, Some("related".to_string()));
    assert_eq!(parsed[0].statement_no, "7");
    assert_eq!(parsed[0].sequence_no, None);
    assert!(parsed[0].opening_balance.is_intermediate);
    assert_eq!(parsed[0].opening_balance.debit_credit_indicator, DebitOrCredit::Debit);
    assert_eq!(parsed[0].closing_balance.amount, Amount::new(15, 1));
    assert_eq!(
        parsed[0].forward_available_balance.as_ref().unwrap().amount,
        Amount::new(350, 2)
    );
    assert_eq!(parsed[1].transaction_ref_no, "second");
    assert_eq!(parsed[1].opening_balance.amount, Amount::new(12, 2));
}

#[test]
fn fail_februrary_30() {
    let input_data = "\
        :20:ref\r\n\
        :25:acc\r\n\
        :28C:1\r\n\
        :60F:C160230EUR1,00\r\n\
        :62F:C160301EUR1,00\r\n";
    let parsed = parse_mt940(input_data);
    let expected = ParseError::DateParseError(DateParseError::OutOfRange {
        year: "2016".to_string(),
        month: "02".to_string(),
        day: "30".to_string(),
    });
    assert_eq!(parsed, Err(expected));
}

#[test]
fn fail_incomplete_tag_61() {
    let input_data = "\
        :20:ref\r\n\
        :25:acc\r\n\
        :28C:1\r\n\
        :60F:C160201EUR1,00\r\n\
        :61:0909250925DR583,92\r\n\
        :62F:C160201EUR1,00\r\n";
    if let Err(ParseError::GrammarError(e)) = parse_mt940(input_data) {
        assert_eq!(e.rule, GrammarRule::StatementLine);
        return;
    }
    assert!(false);
}

#[test]
fn fail_invalid_statement() {
    let input_data = "This is not a statement.\r\nNeither is this.\r\n";
    if let Err(ParseError::RequiredTagNotFoundError(e)) = parse_mt940(input_data) {
        assert_eq!(e, RequiredTagNotFoundError::new("20"));
        return;
    }
    assert!(false);
}

#[test]
fn fail_overly_long_details() {
    let input_data = "\
        :20:ref\r\n\
        :25:acc\r\n\
        :28C:1\r\n\
        :60F:C160201EUR1,00\r\n\
        :61:1602010201D1,00NMSCNONREF\r\n\
        :86:105?00Kontofuehrung?10931?20Abrechnung?21Kontofuehrung?22Entgelt\r\n\
        ?23fuer?32KONTOFUEHRUNG?33g Erhebung?34992?60000000012345 BIC: BYLADEMM \r\n\
        :62F:C160201EUR0,00\r\n";
    if let Err(ParseError::GrammarError(e)) = parse_mt940(input_data) {
        assert_eq!(e.rule, GrammarRule::InformationToAccountOwner);
        assert!(e.input.contains("?33g Erhebung?34992?60000000012345 BIC: BYLADEMM"));
        return;
    }
    assert!(false);
}

#[test]
fn fail_unexpected_tag() {
    let input_data = "\
        :20:3996-11-11111111\r\n\
        :28C:00001/001\r\n\
        :60F:C090924EUR54484,04\r\n";
    if let Err(ParseError::UnexpectedTagError(e)) = parse_mt940(input_data) {
        assert_eq!(
            e,
            UnexpectedTagError::new("28C", "20", vec!["21".to_string(), "25".to_string()])
        );
        return;
    }
    assert!(false);
}

#[test]
fn fail_unknown_tag() {
    let input_data = "\
        :20:3996-11-11111111\r\n\
        :12:something\r\n\
        :25:DABADKKK/111111-11111111\r\n";
    if let Err(e) = parse_mt940(input_data) {
        assert_eq!(e, ParseError::UnknownTagError("12".to_string()));
        return;
    }
    assert!(false);
}

#[test]
fn fail_missing_closing_balance() {
    let input_data = ":20:ref\r\n:25:acc\r\n:28C:1\r\n:60F:C160201EUR1,00\r\n";
    assert_eq!(
        parse_mt940(input_data),
        Err(ParseError::RequiredTagNotFoundError(RequiredTagNotFoundError::new("62")))
    );
}

#[test]
fn fail_fields_before_first_message() {
    let input_data = ":25:acc\r\n:20:ref\r\n";
    assert_eq!(
        parse_mt940(input_data),
        Err(ParseError::UnexpectedTagError(UnexpectedTagError::new(
            "25",
            "",
            vec!["20".to_string()]
        )))
    );
}

#[test]
fn fail_bad_indicator() {
    let input_data = ":20:ref\r\n:25:acc\r\n:28C:1\r\n:60F:X160201EUR1,00\r\n";
    assert_eq!(
        parse_mt940(input_data),
        Err(ParseError::VariantNotFound(mt940::VariantNotFound("X".to_string())))
    );
}

#[test]
fn single_field_reads_back() {
    let parsed = parse_fields(":abc123:a value, (with) ?+{} /-.").unwrap();
    assert_eq!(parsed, vec![Field::new("abc123", "a value, (with) ?+{} /-.")]);
    assert_eq!(
        Field::from_str(":28C:00001/001").unwrap(),
        Field::new("28C", "00001/001")
    );
    assert!(Field::from_str(":20:a\r\n:25:b").is_err());
}

#[test]
fn fail_bare_tag_28() {
    let input_data = ":20:ref\r\n:25:acc\r\n:28:7\r\n";
    assert_eq!(
        parse_mt940(input_data),
        Err(ParseError::UnknownTagError("28".to_string()))
    );
}

#[test]
fn fail_unexpected_after_account_lists_28() {
    let input_data = ":20:ref\r\n:25:acc\r\n:61:x\r\n";
    assert_eq!(
        parse_mt940(input_data),
        Err(ParseError::UnexpectedTagError(UnexpectedTagError::new(
            "61",
            "25",
            vec!["28".to_string(), "28C".to_string()]
        )))
    );
}

#[test]
fn information_without_statement_line() {
    let input = "\
        :20:ref\r\n\
        :25:acc\r\n\
        :28C:1\r\n\
        :60F:C160201EUR1,00\r\n\
        :86:x\r\n\
        :86:y\r\n\
        :62F:C160201EUR1,00\r\n\
        :86:z\r\n";
    let parsed = parse_mt940(input).unwrap();
    assert_eq!(parsed[0].information_to_account_owner, Some("xz".to_string()));
    assert!(parsed[0].statement_lines.is_empty());
}

#[test]
fn fields_refuse_stray_carriage_return() {
    let e = parse_fields(":86:a\r\r\nb\r\n").unwrap_err();
    assert_eq!(e.rule, GrammarRule::Fields);
    assert_eq!(e.input, ":86:a\r");
    let e = parse_fields(":86:a\rb\r\n").unwrap_err();
    assert_eq!(e.input, ":86:a\rb");
}
