use mt940::tag_parsers::{parse_20_tag, parse_28c_tag, parse_60_tag, parse_86_tag};
use mt940::{
    date_from_mt940_date, decimal_from_mt940_amount, Amount, AmountParseError, Balance, Date,
    DateParseError, DebitOrCredit, ExtDebitOrCredit, Field, GrammarRule, ParseError,
    RequiredTagNotFoundError, TransactionTypeIdentificationCode, VariantNotFound,
};

#[test]
fn tag_60_input_specific() {
    let cases = [
        (":60F:C100318EUR380115,12", Amount::new(38011512, 2)),
        (":60F:C100318EUR380115,1", Amount::new(38011510, 2)),
        (":60F:C100318EUR380115,", Amount::new(38011500, 2)),
        (":60F:C100318EUR0,12", Amount::new(12, 2)),
        (":60F:C100318EUR00,12", Amount::new(12, 2)),
        (":60F:C100318EUR001,12", Amount::new(112, 2)),
    ];
    for (input, expected_amount) in cases {
        let expected = Balance {
            is_intermediate: false,
            debit_credit_indicator: DebitOrCredit::Credit,
            date: Date { year: 2010, month: 3, day: 18 },
            iso_currency_code: "EUR".to_string(),
            amount: expected_amount,
        };
        let field = Field::from_str(input).unwrap();
        let parsed = parse_60_tag(&field).unwrap();
        assert_eq!(parsed, expected);
    }
}

#[test]
fn amount_scale_follows_the_digits() {
    let a = decimal_from_mt940_amount("380115,1").unwrap();
    let b = decimal_from_mt940_amount("380115,10").unwrap();
    assert_eq!((a.mantissa, a.scale), (3801151, 1));
    assert_eq!((b.mantissa, b.scale), (38011510, 2));
    assert_eq!(a, b);
    assert_ne!(a, decimal_from_mt940_amount("380115,11").unwrap());
    let c = decimal_from_mt940_amount("12,").unwrap();
    assert_eq!((c.mantissa, c.scale), (12, 0));
    assert_eq!(decimal_from_mt940_amount(",5").unwrap(), Amount::new(5, 1));
}

#[test]
fn amount_errors() {
    assert_eq!(
        decimal_from_mt940_amount("12"),
        Err(AmountParseError::NoComma("12".to_string()))
    );
    assert_eq!(
        decimal_from_mt940_amount("1,2,3"),
        Err(AmountParseError::TooManyCommas("1,2,3".to_string()))
    );
    assert_eq!(
        decimal_from_mt940_amount("1a,2"),
        Err(AmountParseError::IntParseError("1a,2".to_string()))
    );
    assert_eq!(
        decimal_from_mt940_amount(","),
        Err(AmountParseError::IntParseError(",".to_string()))
    );
    assert_eq!(
        decimal_from_mt940_amount("9223372036854775808,"),
        Err(AmountParseError::IntParseError("9223372036854775808,".to_string()))
    );
    assert_eq!(
        decimal_from_mt940_amount("9223372036854775807,").unwrap(),
        Amount::new(i64::MAX, 0)
    );
}

#[test]
fn amounts_compare_by_value() {
    assert_eq!(Amount::new(5, 0), Amount::new(500, 2));
    assert_ne!(Amount::new(5, 0), Amount::new(501, 2));
    assert_ne!(Amount::new(i64::MAX, 0), Amount::new(1, 0));
    assert_eq!(Amount::new(0, 3), Amount::new(0, 28));
}

#[test]
fn dates() {
    assert_eq!(
        date_from_mt940_date("160229"),
        Ok(Date { year: 2016, month: 2, day: 29 })
    );
    assert_eq!(
        date_from_mt940_date("160230"),
        Err(DateParseError::OutOfRange {
            year: "2016".to_string(),
            month: "02".to_string(),
            day: "30".to_string(),
        })
    );
    assert_eq!(
        date_from_mt940_date("170229"),
        Err(DateParseError::OutOfRange {
            year: "2017".to_string(),
            month: "02".to_string(),
            day: "29".to_string(),
        })
    );
    assert_eq!(
        date_from_mt940_date("001301"),
        Err(DateParseError::OutOfRange {
            year: "2000".to_string(),
            month: "13".to_string(),
            day: "01".to_string(),
        })
    );
    assert!(matches!(
        date_from_mt940_date("16023"),
        Err(DateParseError::GrammarError(e)) if e.rule == GrammarRule::Date
    ));
}

#[test]
fn indicators() {
    assert_eq!(DebitOrCredit::from_str("C"), Ok(DebitOrCredit::Credit));
    assert_eq!(DebitOrCredit::from_str("D"), Ok(DebitOrCredit::Debit));
    assert_eq!(
        DebitOrCredit::from_str("RD"),
        Err(VariantNotFound("RD".to_string()))
    );
    assert_eq!(ExtDebitOrCredit::from_str("RD"), Ok(ExtDebitOrCredit::ReverseCredit));
    assert_eq!(ExtDebitOrCredit::from_str("RC"), Ok(ExtDebitOrCredit::ReverseDebit));
    assert_eq!(ExtDebitOrCredit::from_str("C"), Ok(ExtDebitOrCredit::Credit));
    assert_eq!(
        ExtDebitOrCredit::from_str("X"),
        Err(VariantNotFound("X".to_string()))
    );
}

#[test]
fn transaction_codes() {
    assert_eq!(
        TransactionTypeIdentificationCode::from_letters('M', 'S', 'C'),
        Some(TransactionTypeIdentificationCode::MSC)
    );
    assert_eq!(TransactionTypeIdentificationCode::from_letters('X', 'Y', 'Z'), None);
    assert_eq!(TransactionTypeIdentificationCode::TRF.code(), "TRF");
}

#[test]
fn reference_tags() {
    assert_eq!(parse_20_tag(&Field::new("20", "3996-11-11111111")), Ok("3996-11-11111111".to_string()));
    assert!(matches!(
        parse_20_tag(&Field::new("20", "12345678901234567")),
        Err(ParseError::GrammarError(e)) if e.rule == GrammarRule::TransactionRefNo
    ));
    assert_eq!(
        parse_20_tag(&Field::new("21", "abc")),
        Err(ParseError::RequiredTagNotFoundError(RequiredTagNotFoundError::new("20")))
    );
}

#[test]
fn statement_numbers() {
    assert_eq!(
        parse_28c_tag(&Field::new("28C", "00001/001")),
        Ok(("00001".to_string(), Some("001".to_string())))
    );
    assert_eq!(parse_28c_tag(&Field::new("28C", "5")), Ok(("5".to_string(), None)));
    assert!(parse_28c_tag(&Field::new("28C", "123456")).is_err());
    assert!(parse_28c_tag(&Field::new("28C", "1/")).is_err());
}

#[test]
fn information_lines() {
    let text = "one\ntwo\nthree\nfour\nfive\nsix";
    assert_eq!(parse_86_tag(&Field::new("86", text)), Ok(text.to_string()));
    assert!(parse_86_tag(&Field::new("86", "one\ntwo\nthree\nfour\nfive\nsix\nseven")).is_err());
}
