use remindbot::duration::{parse_period, MONTH_MS};

#[test]
fn period() {
    assert_eq!(parse_period("1m"), Ok(60_000));
    assert_eq!(parse_period("1m23s456ms1m"), Ok((2 * 60 + 23) * 1_000 + 456));
}

#[test]
fn empty_is_zero() {
    assert_eq!(parse_period(""), Ok(0));
}

#[test]
fn every_unit() {
    assert_eq!(parse_period("7ms"), Ok(7));
    assert_eq!(parse_period("7s"), Ok(7_000));
    assert_eq!(parse_period("7m"), Ok(7 * 60_000));
    assert_eq!(parse_period("7h"), Ok(7 * 3_600_000));
    assert_eq!(parse_period("7d"), Ok(7 * 86_400_000));
    assert_eq!(parse_period("7w"), Ok(7 * 604_800_000));
    assert_eq!(parse_period("7mo"), Ok(7 * MONTH_MS));
}

#[test]
fn month_is_average_month() {
    // The month unit is the fixed approximation 365.24 / 12 days, not
    // calendar arithmetic.
    assert_eq!((365.24 / 12. * 86_400_000.) as u64, MONTH_MS);
    assert_eq!(MONTH_MS, 2_629_728_000);
}

#[test]
fn repeated_units_add() {
    assert_eq!(parse_period("1m1m"), Ok(120_000));
    assert_eq!(parse_period("2s2s2s"), Ok(6_000));
}

#[test]
fn unit_without_number() {
    assert_eq!(parse_period("x"), Err("expecting a number at: 'x'".to_string()));
    assert_eq!(parse_period(" 1m"), Err("expecting a number at: ' 1m'".to_string()));
}

#[test]
fn unit_is_the_maximal_non_digit_run() {
    // The space does not end the unit; everything up to the next digit or
    // the end of the text belongs to it.
    assert_eq!(parse_period("1m s"), Err("unsupported duration code: m s".to_string()));
}

#[test]
fn number_without_unit() {
    assert_eq!(parse_period("5"), Err("trailing unparsable junk: '5'".to_string()));
    assert_eq!(parse_period("1m2"), Err("trailing unparsable junk: '2'".to_string()));
}

#[test]
fn unknown_unit() {
    assert_eq!(parse_period("5z"), Err("unsupported duration code: z".to_string()));
    assert_eq!(parse_period("3mos"), Err("unsupported duration code: mos".to_string()));
}

#[test]
fn number_too_large() {
    let msg = Err("invalid number: number too large to fit in target type".to_string());
    // More digits than a 64-bit count can hold.
    assert_eq!(parse_period("99999999999999999999ms"), msg.clone());
    // Digits fit, but the product with the unit does not.
    assert_eq!(parse_period("1000000000000w"), msg.clone());
    // Each pair fits, but the sum does not.
    assert_eq!(parse_period("18446744073709551615ms1ms"), msg);
}

#[test]
fn first_error_wins() {
    // The oversized number is hit before the bad unit that follows it.
    assert_eq!(
        parse_period("99999999999999999999z"),
        Err("invalid number: number too large to fit in target type".to_string())
    );
    // The bad unit is hit before the trailing junk that follows it.
    assert_eq!(parse_period("5z7"), Err("unsupported duration code: z".to_string()));
}
