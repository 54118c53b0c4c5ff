//! What holds of every configuration.

use crate::amount::Amount;
use crate::config::{AppConfig, ConfigError, EnvVars};
use crate::decimal::parse;
use crate::decimal_laws::Numeral;
use crate::text::parse_whole;
use vstd::prelude::*;

verus! {

/// Both variables are set to the same text, or neither is set.
pub open spec fn is_same(one: Option<String>, other: Option<String>) -> bool {
    match (one, other) {
        (Some(text), Some(other_text)) => text@ == other_text@,
        (None, None) => true,
        _ => false,
    }
}

/// Both amounts are the same, or neither is a number.
pub open spec fn is_same_amount(one: Amount, other: Amount) -> bool {
    one.bits == other.bits || (one.is_nan() && other.is_nan())
}

/// A variable that is not set has its own default, whatever the others are: the
/// port is 8080, the limit 5 dollars, the price 6.25 dollars, and limits are
/// enforced.
pub proof fn law_every_variable_has_its_own_default(
    vars: EnvVars,
    read: Result<AppConfig, ConfigError>,
)
    requires
        call_ensures(AppConfig::from_process_env, (&vars,), read),
    ensures
        read matches Ok(config) ==> {
            &&& vars.port is None ==> config.port == 8080
            &&& vars.max_cost_per_query is None ==> config.max_cost_per_query.bits
                == 0x4014_0000_0000_0000
            &&& vars.price_per_tib is None ==> config.price_per_tib.bits == 0x4019_0000_0000_0000
            &&& vars.enforce_mode is None ==> config.enforce_mode
        },
{
    lemma_default_port();
    if let Ok(config) = read {
        if vars.max_cost_per_query is None {
            lemma_default_limit(config.max_cost_per_query);
        }
        if vars.price_per_tib is None {
            lemma_default_price(config.price_per_tib);
        }
        assert("true"@ != "false"@) by {
            reveal_strlit("true");
            reveal_strlit("false");
            assert("true"@.len() != "false"@.len());
        }
    }
}

/// No variable has a say in what another is read as.
pub proof fn law_every_variable_is_read_alone(
    vars: EnvVars,
    others: EnvVars,
    read: Result<AppConfig, ConfigError>,
    other_read: Result<AppConfig, ConfigError>,
)
    requires
        call_ensures(AppConfig::from_process_env, (&vars,), read),
        call_ensures(AppConfig::from_process_env, (&others,), other_read),
        read is Ok,
        other_read is Ok,
    ensures
        is_same(vars.port, others.port) ==> read->Ok_0.port == other_read->Ok_0.port,
        is_same(vars.max_cost_per_query, others.max_cost_per_query) ==> is_same_amount(
            read->Ok_0.max_cost_per_query,
            other_read->Ok_0.max_cost_per_query,
        ),
        is_same(vars.price_per_tib, others.price_per_tib) ==> is_same_amount(
            read->Ok_0.price_per_tib,
            other_read->Ok_0.price_per_tib,
        ),
        is_same(vars.enforce_mode, others.enforce_mode) ==> read->Ok_0.enforce_mode
            == other_read->Ok_0.enforce_mode,
{
}

/// A variable that is set is what its own text is read as: the port as a whole
/// number, the limit and the price as amounts. Limits are enforced unless their
/// variable is set to the word `false`.
pub proof fn law_a_variable_is_what_its_text_says(
    vars: EnvVars,
    read: Result<AppConfig, ConfigError>,
    text: &str,
    number: Option<u64>,
    amount: Option<Amount>,
)
    requires
        call_ensures(AppConfig::from_process_env, (&vars,), read),
        call_ensures(parse_whole, (text, 65535), number),
        call_ensures(parse, (text,), amount),
    ensures
        read matches Ok(config) ==> {
            &&& (vars.port matches Some(set) && set@ == text@) ==> number == Some(
                config.port as u64,
            )
            &&& (vars.max_cost_per_query matches Some(set) && set@ == text@) ==> (
            amount matches Some(limit) && is_same_amount(config.max_cost_per_query, limit))
            &&& (vars.price_per_tib matches Some(set) && set@ == text@) ==> (
            amount matches Some(price) && is_same_amount(config.price_per_tib, price))
            &&& (vars.enforce_mode matches Some(set) && set@ == text@) ==> config.enforce_mode == (
            text@ != seq!['f', 'a', 'l', 's', 'e'])
        },
{
    reveal_strlit("false");
    assert("false"@ =~= seq!['f', 'a', 'l', 's', 'e']);
}

/// The variables are read unless the port, the limit or the price is set to a
/// text that cannot be read, and then the first of these is named.
pub proof fn law_the_first_that_cannot_be_read_is_named(
    vars: EnvVars,
    read: Result<AppConfig, ConfigError>,
    port: &str,
    limit: &str,
    price: &str,
    port_read: Option<u64>,
    limit_read: Option<Amount>,
    price_read: Option<Amount>,
)
    requires
        call_ensures(AppConfig::from_process_env, (&vars,), read),
        vars.port matches Some(text) ==> text@ == port@,
        vars.max_cost_per_query matches Some(text) ==> text@ == limit@,
        vars.price_per_tib matches Some(text) ==> text@ == price@,
        call_ensures(parse_whole, (port, 65535), port_read),
        call_ensures(parse, (limit,), limit_read),
        call_ensures(parse, (price,), price_read),
    ensures
        ({
            let no_port = vars.port is Some && port_read is None;
            let no_limit = vars.max_cost_per_query is Some && limit_read is None;
            let no_price = vars.price_per_tib is Some && price_read is None;
            &&& read is Ok <==> !no_port && !no_limit && !no_price
            &&& read matches Err(error) ==> error == (if no_port {
                ConfigError::Port
            } else if no_limit {
                ConfigError::MaxCostPerQuery
            } else {
                ConfigError::PricePerTib
            })
        }),
{
    lemma_default_port();
    lemma_default_limit_is_read();
    lemma_default_price_is_read();
}

proof fn lemma_default_port()
    ensures
        crate::text::whole_number("8080"@) == Some(8080int),
{
    reveal_strlit("8080");
    let text = "8080"@;
    let three = text.drop_last();
    let two = three.drop_last();
    assert(two.drop_last() =~= seq!['8']);
    crate::text::law_a_digit_stands_for_its_place('8');
    assert(crate::text::digits_value(two) == 80);
    assert(crate::text::digits_value(three) == 808);
    assert(crate::text::digits_value(text) == 8080);
}

/// One digit, a point, and two digits.
spec fn short_numeral(a: char, b: char, c: char) -> Numeral {
    Numeral {
        sign: Seq::empty(),
        whole: seq![a],
        point: true,
        fraction: seq![b, c],
        mark: Seq::empty(),
        power_sign: Seq::empty(),
        power: Seq::empty(),
    }
}

proof fn lemma_short_numeral(a: char, b: char, c: char)
    requires
        crate::text::is_digit(a),
        crate::text::is_digit(b),
        crate::text::is_digit(c),
    ensures
        short_numeral(a, b, c).is_valid(),
        short_numeral(a, b, c).sign != seq!['-'],
        short_numeral(a, b, c).text() == seq![a, '.', b, c],
        short_numeral(a, b, c).numerator() == 100 * (a as int - 48) + 10 * (b as int - 48) + (
        c as int - 48),
        short_numeral(a, b, c).denominator() == 100,
{
    let numeral = short_numeral(a, b, c);
    assert(numeral.text() =~= seq![a, '.', b, c]);
    assert(numeral.sign.len() != seq!['-'].len());
    assert(numeral.power_sign.len() != seq!['-'].len());
    let digits = numeral.whole + numeral.fraction;
    assert(digits.drop_last().drop_last() =~= seq![a]);
    crate::text::law_a_digit_stands_for_its_place(a);
    assert(crate::text::digits_value(digits.drop_last()) == 10 * (a as int - 48) + (b as int - 48));
    assert(numeral.exponent() == -2);
    vstd::arithmetic::power::lemma_pow0(10);
    crate::positional::lemma_power_step(10, 0);
    crate::positional::lemma_power_step(10, 1);
}

proof fn lemma_default_limit_is_read()
    ensures
        "5.00"@ == short_numeral('5', '0', '0').text(),
        crate::decimal::reading("5.00"@) is Some,
{
    reveal_strlit("5.00");
    lemma_short_numeral('5', '0', '0');
    assert("5.00"@ =~= seq!['5', '.', '0', '0']);
    crate::decimal_laws::lemma_numeral(short_numeral('5', '0', '0'));
}

proof fn lemma_default_price_is_read()
    ensures
        "6.25"@ == short_numeral('6', '2', '5').text(),
        crate::decimal::reading("6.25"@) is Some,
{
    reveal_strlit("6.25");
    lemma_short_numeral('6', '2', '5');
    assert("6.25"@ =~= seq!['6', '.', '2', '5']);
    crate::decimal_laws::lemma_numeral(short_numeral('6', '2', '5'));
}

proof fn lemma_default_limit(amount: Amount)
    requires
        crate::decimal::says("5.00"@, amount),
    ensures
        amount.bits == 0x4014_0000_0000_0000,
{
    let unit = crate::rounding::pow2(1074);
    lemma_default_limit_is_read();
    lemma_short_numeral('5', '0', '0');
    crate::decimal_laws::lemma_what_a_numeral_says(short_numeral('5', '0', '0'), amount);
    crate::rounding::lemma_magnitude_of_parts(1024, 0x0014_0000_0000_0000);
    vstd::arithmetic::power2::lemma2_to64_rest();
    vstd::arithmetic::power2::lemma_pow2_adds(50, 1024);
    crate::rounding::lemma_nearest_exact(0x4014_0000_0000_0000, 500 * unit, 100);
}

proof fn lemma_default_price(amount: Amount)
    requires
        crate::decimal::says("6.25"@, amount),
    ensures
        amount.bits == 0x4019_0000_0000_0000,
{
    let unit = crate::rounding::pow2(1074);
    lemma_default_price_is_read();
    lemma_short_numeral('6', '2', '5');
    crate::decimal_laws::lemma_what_a_numeral_says(short_numeral('6', '2', '5'), amount);
    crate::rounding::lemma_magnitude_of_parts(1024, 0x0019_0000_0000_0000);
    vstd::arithmetic::power2::lemma2_to64_rest();
    vstd::arithmetic::power2::lemma_pow2_adds(50, 1024);
    vstd::arithmetic::power2::lemma_pow2_adds(48, 1024);
    vstd::arithmetic::power2::lemma_pow2_adds(2, 1072);
    crate::rounding::lemma_nearest_exact(0x4019_0000_0000_0000, 625 * unit, 100);
}

} // verus!
