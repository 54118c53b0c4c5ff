//! The configuration of the proxy.

use crate::amount::Amount;
use crate::decimal;
use crate::text::parse_whole;
use vstd::prelude::*;

verus! {

/// The variables that configure the proxy, each as far as it is set.
pub struct EnvVars {
    /// `PORT`
    pub port: Option<String>,
    /// `BQ_MAX_COST_PER_QUERY`
    pub max_cost_per_query: Option<String>,
    /// `BQ_PRICE_PER_TIB`
    pub price_per_tib: Option<String>,
    /// `ENFORCE_MODE`
    pub enforce_mode: Option<String>,
}

/// The configuration of the proxy.
#[derive(Clone, Debug)]
pub struct AppConfig {
    pub port: u16,
    pub max_cost_per_query: Amount,
    pub price_per_tib: Amount,
    pub enforce_mode: bool,
}

/// A variable that is set to something that cannot be read.
#[derive(Clone, Copy, Debug, PartialEq, Eq, Structural)]
pub enum ConfigError {
    Port,
    MaxCostPerQuery,
    PricePerTib,
}

/// The text of a variable, or its default where it is not set.
pub open spec fn text_or(variable: Option<String>, default: Seq<char>) -> Seq<char> {
    match variable {
        Some(text) => text@,
        None => default,
    }
}

/// The text stands for a port number.
pub open spec fn is_port(text: Seq<char>) -> bool {
    crate::text::whole_number(text) matches Some(number) && number <= u16::MAX
}

impl EnvVars {
    pub open spec fn port_text(self) -> Seq<char> {
        text_or(self.port, "8080"@)
    }

    pub open spec fn max_cost_text(self) -> Seq<char> {
        text_or(self.max_cost_per_query, "5.00"@)
    }

    pub open spec fn price_text(self) -> Seq<char> {
        text_or(self.price_per_tib, "6.25"@)
    }

    pub open spec fn enforce_text(self) -> Seq<char> {
        text_or(self.enforce_mode, "true"@)
    }
}

/// What the variables are read as: a configuration where all of them can be
/// read, and otherwise the first that cannot.
pub open spec fn is_read(vars: EnvVars, read: Result<AppConfig, ConfigError>) -> bool {
    match read {
        Ok(config) => {
            &&& crate::text::whole_number(vars.port_text()) == Some(config.port as int)
            &&& decimal::says(vars.max_cost_text(), config.max_cost_per_query)
            &&& decimal::says(vars.price_text(), config.price_per_tib)
            &&& config.enforce_mode == (vars.enforce_text() != "false"@)
        },
        Err(ConfigError::Port) => !is_port(vars.port_text()),
        Err(ConfigError::MaxCostPerQuery) => {
            &&& is_port(vars.port_text())
            &&& decimal::reading(vars.max_cost_text()) is None
        },
        Err(ConfigError::PricePerTib) => {
            &&& is_port(vars.port_text())
            &&& decimal::reading(vars.max_cost_text()) is Some
            &&& decimal::reading(vars.price_text()) is None
        },
    }
}

/// The text of a variable, or its default where it is not set.
fn read_or(variable: &Option<String>, default: &str) -> (text: String)
    ensures
        text@ == text_or(*variable, default@),
{
    match variable {
        Some(text) => text.clone(),
        None => default.to_string(),
    }
}

impl AppConfig {
    /// Reads the configuration from what is set in the process environment,
    /// with the documented defaults for what is not. A port or an amount that
    /// cannot be read is an error, the first of them in this order. Queries are
    /// blocked unless `ENFORCE_MODE` is exactly `false`.
    pub fn from_process_env(vars: &EnvVars) -> (read: Result<AppConfig, ConfigError>)
        ensures
            is_read(*vars, read),
    {
        let port = match parse_whole(read_or(&vars.port, "8080").as_str(), 65535) {
            None => {
                return Err(ConfigError::Port);
            },
            Some(port) => port as u16,
        };
        let max_cost = read_or(&vars.max_cost_per_query, "5.00");
        let max_cost_per_query = match decimal::parse(max_cost.as_str()) {
            None => {
                return Err(ConfigError::MaxCostPerQuery);
            },
            Some(amount) => amount,
        };
        let price = read_or(&vars.price_per_tib, "6.25");
        let price_per_tib = match decimal::parse(price.as_str()) {
            None => {
                return Err(ConfigError::PricePerTib);
            },
            Some(amount) => amount,
        };
        let enforce_mode: bool = read_or(&vars.enforce_mode, "true") != "false".to_string();
        Ok(AppConfig { port, max_cost_per_query, price_per_tib, enforce_mode })
    }
}

impl ConfigError {
    /// What is wrong.
    pub open spec fn text(self) -> Seq<char> {
        match self {
            ConfigError::Port => "PORT must be a valid number"@,
            ConfigError::MaxCostPerQuery => "BQ_MAX_COST_PER_QUERY must be a valid decimal"@,
            ConfigError::PricePerTib => "BQ_PRICE_PER_TIB must be a valid decimal"@,
        }
    }

    /// What is wrong.
    pub fn message(&self) -> (message: String)
        ensures
            message@ == self.text(),
    {
        match self {
            ConfigError::Port => "PORT must be a valid number".to_string(),
            ConfigError::MaxCostPerQuery => {
                "BQ_MAX_COST_PER_QUERY must be a valid decimal".to_string()
            },
            ConfigError::PricePerTib => "BQ_PRICE_PER_TIB must be a valid decimal".to_string(),
        }
    }
}

/// The variable is set to this text.
pub open spec fn is_set(variable: Option<String>, text: Seq<char>) -> bool {
    variable matches Some(set) && set@ == text
}

/// A flag as a word.
pub open spec fn flag_text(flag: bool) -> Seq<char> {
    if flag {
        "true"@
    } else {
        "false"@
    }
}

/// A configuration that is written to the variables reads back as itself,
/// whichever texts the amounts are written as, as long as they say the amounts.
/// No amount and no port is refused or replaced.
pub proof fn law_a_configuration_reads_back(
    config: AppConfig,
    vars: EnvVars,
    max_cost: Seq<char>,
    price: Seq<char>,
    read: Result<AppConfig, ConfigError>,
)
    requires
        !config.max_cost_per_query.is_nan(),
        !config.price_per_tib.is_nan(),
        decimal::says(max_cost, config.max_cost_per_query),
        decimal::says(price, config.price_per_tib),
        is_set(vars.port, crate::text::decimal_text(config.port as int)),
        is_set(vars.max_cost_per_query, max_cost),
        is_set(vars.price_per_tib, price),
        is_set(vars.enforce_mode, flag_text(config.enforce_mode)),
        is_read(vars, read),
    ensures
        read == Ok::<AppConfig, ConfigError>(config),
{
    crate::text::law_a_whole_number_reads_back(config.port as int);
    assert("true"@ != "false"@) by {
        reveal_strlit("true");
        reveal_strlit("false");
        assert("true"@.len() != "false"@.len());
    }
    if let Ok(again) = read {
        decimal::law_a_text_says_one_amount(
            max_cost,
            config.max_cost_per_query,
            again.max_cost_per_query,
        );
        decimal::law_a_text_says_one_amount(price, config.price_per_tib, again.price_per_tib);
    }
}

/// A configuration whose finite amounts are written to their last digit reads
/// back as itself.
pub proof fn law_an_exact_configuration_reads_back(
    config: AppConfig,
    vars: EnvVars,
    read: Result<AppConfig, ConfigError>,
)
    requires
        config.max_cost_per_query.is_finite(),
        config.price_per_tib.is_finite(),
        is_set(vars.port, crate::text::decimal_text(config.port as int)),
        is_set(vars.max_cost_per_query, decimal::exact_text(config.max_cost_per_query)),
        is_set(vars.price_per_tib, decimal::exact_text(config.price_per_tib)),
        is_set(vars.enforce_mode, flag_text(config.enforce_mode)),
        is_read(vars, read),
    ensures
        read == Ok::<AppConfig, ConfigError>(config),
{
    decimal::law_an_amount_reads_back(config.max_cost_per_query);
    decimal::law_an_amount_reads_back(config.price_per_tib);
    law_a_configuration_reads_back(
        config,
        vars,
        decimal::exact_text(config.max_cost_per_query),
        decimal::exact_text(config.price_per_tib),
        read,
    );
}

} // verus!
