use vstd::prelude::*;
use std::sync::Arc;
use crate::token::NumberFormat;

verus! {

/// How angles are measured.
#[derive(Debug, Clone, Copy, PartialEq, Eq, Structural)]
pub enum AngleMode {
    Degrees,
    Radians,
}

/// The settings of a calculator.
#[derive(Debug, Clone, Copy)]
pub struct CalculatorConfig {
    pub precision: u32,
    pub angle_mode: AngleMode,
    pub notation: NumberFormat,
}

/// The default precision, in digits.
pub const DEFAULT_PRECISION: u32 = 10;

/// The largest precision, in digits.
pub const MAX_PRECISION: u32 = 100;

/// The default settings: 10 digits, radians, decimal notation.
pub open spec fn default_config() -> CalculatorConfig {
    CalculatorConfig {
        precision: 10,
        angle_mode: AngleMode::Radians,
        notation: NumberFormat::Decimal,
    }
}

impl Default for CalculatorConfig {
    fn default() -> (c: CalculatorConfig)
        ensures
            c == default_config(),
    {
        CalculatorConfig {
            precision: 10,
            angle_mode: AngleMode::Radians,
            notation: NumberFormat::Decimal,
        }
    }
}

impl CalculatorConfig {
    /// Settings for scientific work: 15 digits, radians, scientific notation.
    pub fn scientific() -> (c: CalculatorConfig)
        ensures
            c == (CalculatorConfig {
                precision: 15,
                angle_mode: AngleMode::Radians,
                notation: NumberFormat::Scientific,
            }),
    {
        CalculatorConfig {
            precision: 15,
            angle_mode: AngleMode::Radians,
            notation: NumberFormat::Scientific,
        }
    }

    /// The default settings with engineering notation.
    pub fn engineering() -> (c: CalculatorConfig)
        ensures
            c == (CalculatorConfig { notation: NumberFormat::Engineering, ..default_config() }),
    {
        CalculatorConfig { notation: NumberFormat::Engineering, ..CalculatorConfig::default() }
    }
}

/// The configuration shared by the whole program: the default settings, in
/// one place for the program's lifetime, so every call hands out the same
/// reference.
pub fn get_global_config() -> (c: &'static CalculatorConfig)
    ensures
        *c == default_config(),
{
    &CalculatorConfig {
        precision: 10,
        angle_mode: AngleMode::Radians,
        notation: NumberFormat::Decimal,
    }
}

/// `Arc::clone` from std: a new pointer to the same allocation, so to the
/// same value.
#[verifier::external_body]
fn share_config(config: &Arc<CalculatorConfig>) -> (r: Arc<CalculatorConfig>)
    ensures
        *r == **config,
{
    Arc::clone(config)
}

/// Calculators that share one configuration.
pub struct CalculatorPool {
    shared_config: Arc<CalculatorConfig>,
    _calculators: Vec<()>,
}

impl CalculatorPool {
    pub fn new(config: CalculatorConfig) -> (p: CalculatorPool)
        ensures
            p.config_value() == config,
    {
        CalculatorPool { shared_config: Arc::new(config), _calculators: Vec::new() }
    }

    /// The shared configuration.
    pub closed spec fn config_value(&self) -> CalculatorConfig {
        *self.shared_config
    }

    /// Another handle on the shared configuration.
    pub fn get_config(&self) -> (c: Arc<CalculatorConfig>)
        ensures
            *c == self.config_value(),
    {
        share_config(&self.shared_config)
    }
}

} // verus!
