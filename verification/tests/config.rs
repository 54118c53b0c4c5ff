use bq_sentinel::config::{AppConfig, ConfigError, EnvVars};

fn absent() -> EnvVars {
    EnvVars { port: None, max_cost_per_query: None, price_per_tib: None, enforce_mode: None }
}

fn set(value: &str) -> Option<String> {
    Some(value.to_string())
}

fn from_process_env(vars: EnvVars) -> AppConfig {
    match AppConfig::from_process_env(&vars) {
        Ok(config) => config,
        Err(error) => panic!("{}", error.message()),
    }
}

fn error(vars: EnvVars) -> ConfigError {
    match AppConfig::from_process_env(&vars) {
        Ok(_) => panic!("the configuration was read"),
        Err(error) => error,
    }
}

#[test]
fn uses_documented_defaults_when_env_vars_are_absent() {
    let config = from_process_env(absent());

    assert_eq!(config.port, 8080);
    assert_eq!(f64::from_bits(config.max_cost_per_query.bits), 5.00);
    assert_eq!(f64::from_bits(config.price_per_tib.bits), 6.25);
    assert!(config.enforce_mode);
}

#[test]
fn reads_overrides_from_the_environment() {
    let config = from_process_env(EnvVars {
        port: set("9090"),
        max_cost_per_query: set("12.5"),
        price_per_tib: set("7.8125"),
        enforce_mode: set("false"),
    });

    assert_eq!(config.port, 9090);
    assert_eq!(f64::from_bits(config.max_cost_per_query.bits), 12.5);
    assert_eq!(f64::from_bits(config.price_per_tib.bits), 7.8125);
    assert!(!config.enforce_mode);
}

#[test]
#[should_panic(expected = "PORT must be a valid number")]
fn panics_when_port_is_not_numeric() {
    from_process_env(EnvVars { port: set("not-a-port"), ..absent() });
}

#[test]
fn falls_back_to_enforced_when_enforce_mode_is_not_a_valid_boolean() {
    let config = from_process_env(EnvVars { enforce_mode: set("maybe"), ..absent() });

    assert!(config.enforce_mode);
}

#[test]
fn only_the_word_false_turns_enforcement_off() {
    for text in ["true", "FALSE", "False", " false", "0", ""] {
        let config = from_process_env(EnvVars { enforce_mode: set(text), ..absent() });
        assert!(config.enforce_mode, "{}", text);
    }
}

#[test]
fn ports_are_read_as_the_standard_library_reads_them() {
    let texts = [
        "0", "1", "65535", "65536", "+80", "-1", "+", "", " 80", "80 ", "8_0", "0080", "080x",
        "99999999999999999999999999", "00000000000000000000000000000080", "++1", "+-1",
    ];
    for text in texts {
        let read = AppConfig::from_process_env(&EnvVars { port: set(text), ..absent() });
        match text.parse::<u16>() {
            Ok(port) => assert_eq!(read.unwrap().port, port, "{}", text),
            Err(_) => assert_eq!(read.unwrap_err(), ConfigError::Port, "{}", text),
        }
    }
}

#[test]
fn the_first_variable_that_cannot_be_read_is_named() {
    assert_eq!(
        error(EnvVars {
            port: set("x"),
            max_cost_per_query: set("x"),
            price_per_tib: set("x"),
            enforce_mode: None,
        }),
        ConfigError::Port,
    );
    assert_eq!(
        error(EnvVars { max_cost_per_query: set("x"), price_per_tib: set("x"), ..absent() }),
        ConfigError::MaxCostPerQuery,
    );
    assert_eq!(error(EnvVars { price_per_tib: set("5 "), ..absent() }), ConfigError::PricePerTib);
}

#[test]
fn errors_say_what_is_wrong() {
    assert_eq!(ConfigError::Port.message(), "PORT must be a valid number");
    assert_eq!(
        ConfigError::MaxCostPerQuery.message(),
        "BQ_MAX_COST_PER_QUERY must be a valid decimal",
    );
    assert_eq!(ConfigError::PricePerTib.message(), "BQ_PRICE_PER_TIB must be a valid decimal");
}

fn reads_back(port: u16, max_cost: f64, price: f64, enforce_mode: bool) {
    let config = from_process_env(EnvVars {
        port: Some(port.to_string()),
        max_cost_per_query: Some(max_cost.to_string()),
        price_per_tib: Some(price.to_string()),
        enforce_mode: Some(enforce_mode.to_string()),
    });
    assert_eq!(config.port, port);
    assert_eq!(config.max_cost_per_query.bits, max_cost.to_bits());
    assert_eq!(config.price_per_tib.bits, price.to_bits());
    assert_eq!(config.enforce_mode, enforce_mode);
}

#[test]
fn a_configuration_that_was_written_reads_back_as_itself() {
    reads_back(8080, 5.0, 6.25, true);
    reads_back(9090, 12.5, 7.8125, false);
    reads_back(0, 0.0, -0.0, true);
    reads_back(65535, -3.5, -0.1, false);
    reads_back(1, f64::MAX, 5e-324, true);
    reads_back(443, f64::MIN, f64::MIN_POSITIVE, false);
    reads_back(80, f64::INFINITY, f64::NEG_INFINITY, true);
}

/// The amount in all its digits, as a whole number of 10^-1074.
fn exact(value: f64) -> String {
    let digits = format!("{:.1074}", value.abs()).replace('.', "");
    let count = digits.trim_start_matches('0');
    let sign = if value.is_sign_negative() { "-" } else { "" };
    format!("{}{}e-1074", sign, if count.is_empty() { "0" } else { count })
}

#[test]
fn a_configuration_in_exact_decimals_reads_back_as_itself() {
    for (max_cost, price) in [(5.0, 0.1), (0.0, -0.0), (-2.5, 5e-324), (1e15, 6.25)] {
        let config = from_process_env(EnvVars {
            max_cost_per_query: Some(exact(max_cost)),
            price_per_tib: Some(exact(price)),
            ..absent()
        });
        assert_eq!(config.max_cost_per_query.bits, max_cost.to_bits());
        assert_eq!(config.price_per_tib.bits, price.to_bits());
    }
}
