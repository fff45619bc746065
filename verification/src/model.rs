//! Domain model for SmartFox measurements.

use vstd::prelude::*;
use crate::number::{
    float_syntax, is_sign, dot_index, exp_index, is_float_text, is_digit, unsigned_part, valid_mantissa,
    is_special_word, ascii_lower, rounded_magnitude, scaled_value, scaled_amount,
    digits_value, int_part, frac_part, pow10,
};
use crate::smartfox::SmartFoxValues;
use crate::address::{IpAddress, AddressView, ip_value};
use crate::text::{
    push_char, chars_of, string_of, replaced, replace_all, trim, trimmed, strip_end, stripped_end, first_where,
    lemma_first_where, same_chars, tail_from, head_to, is_space, trim_start, trim_end,
    lemma_first_where_bounds, lemma_replace_all_absent, lemma_trim_unchanged, lemma_trim_start_one,
    lemma_trim_end_one,
};

verus! {

/// A number as the device wrote it, in the syntax that std's float parser accepts.
#[derive(Debug, PartialEq)]
pub struct NumberText {
    text: String,
}

impl Clone for NumberText {
    fn clone(&self) -> (r: Self)
        ensures
            r@ == self@,
    {
        NumberText { text: self.text.clone() }
    }
}

impl View for NumberText {
    type V = Seq<char>;

    closed spec fn view(&self) -> Seq<char> {
        self.text@
    }
}

impl NumberText {
    /// Accepts `text` when std's float parser would.
    pub fn new(text: &str) -> (r: Option<NumberText>)
        ensures
            r is Some <==> float_syntax(text@),
            r matches Some(n) ==> n@ == text@,
    {
        let cs = chars_of(text);
        if is_float_text(cs.as_slice()) {
            Some(NumberText { text: text.to_owned() })
        } else {
            None
        }
    }

    fn from_chars(cs: &[char]) -> (r: NumberText)
        requires
            float_syntax(cs@),
        ensures
            r@ == cs@,
    {
        NumberText { text: string_of(cs) }
    }

    /// The number's text.
    pub fn as_str(&self) -> (s: &str)
        ensures
            s@ == self@,
    {
        self.text.as_str()
    }
}

/// Stores a power value in watts.
#[derive(Clone, Copy, Debug, PartialEq, Eq)]
pub struct Power {
    /// Power rounded to whole watts.
    pub watts: i64,
}

/// Stores an energy value in watt-hours.
#[derive(Clone, Copy, Debug, PartialEq, Eq)]
pub struct Energy {
    /// Energy rounded to whole watt-hours.
    pub watt_hours: i64,
}

/// Stores a percentage value.
#[derive(Clone, Debug, PartialEq)]
pub struct Percent {
    /// Percentage as a value in the range reported by the device.
    pub percent: NumberText,
}

/// Stores a temperature value in Celsius.
#[derive(Clone, Debug, PartialEq)]
pub struct Temperature {
    /// Temperature in degrees Celsius.
    pub celsius: NumberText,
}

/// Stores an electrical potential in volts.
#[derive(Clone, Debug, PartialEq)]
pub struct Voltage {
    /// Electrical potential in volts.
    pub volts: NumberText,
}

/// Stores an electrical current in amperes.
#[derive(Clone, Debug, PartialEq)]
pub struct Current {
    /// Electrical current in amperes.
    pub amperes: NumberText,
}

impl View for Power {
    type V = Power;

    open spec fn view(&self) -> Power {
        *self
    }
}

impl View for Energy {
    type V = Energy;

    open spec fn view(&self) -> Energy {
        *self
    }
}

impl View for Percent {
    type V = Seq<char>;

    open spec fn view(&self) -> Seq<char> {
        self.percent@
    }
}

impl View for Temperature {
    type V = Seq<char>;

    open spec fn view(&self) -> Seq<char> {
        self.celsius@
    }
}

impl View for Voltage {
    type V = Seq<char>;

    open spec fn view(&self) -> Seq<char> {
        self.volts@
    }
}

impl View for Current {
    type V = Seq<char>;

    open spec fn view(&self) -> Seq<char> {
        self.amperes@
    }
}

/// Reports measurement parsing failures.
#[derive(Clone, Debug, PartialEq)]
pub enum MeasurementParseError {
    /// Indicates that no measurement text was present.
    Empty,
    /// Indicates that the numeric part could not be parsed.
    InvalidNumber,
    /// Indicates that a required unit was absent.
    MissingUnit {
        /// Expected unit description.
        expected: &'static str,
    },
    /// Indicates that the unit cannot be normalized.
    UnsupportedUnit {
        /// Unit found in the payload.
        unit: String,
        /// Expected unit description.
        expected: &'static str,
    },
}

/// A measurement parsing failure, with its texts as character sequences.
pub enum MeasurementFault {
    Empty,
    InvalidNumber,
    MissingUnit { expected: Seq<char> },
    UnsupportedUnit { unit: Seq<char>, expected: Seq<char> },
}

impl View for MeasurementParseError {
    type V = MeasurementFault;

    open spec fn view(&self) -> MeasurementFault {
        match self {
            MeasurementParseError::Empty => MeasurementFault::Empty,
            MeasurementParseError::InvalidNumber => MeasurementFault::InvalidNumber,
            MeasurementParseError::MissingUnit { expected } => MeasurementFault::MissingUnit {
                expected: expected@,
            },
            MeasurementParseError::UnsupportedUnit { unit, expected } =>
                MeasurementFault::UnsupportedUnit { unit: unit@, expected: expected@ },
        }
    }
}

/// The view of a parse outcome.
pub open spec fn outcome<T: View>(r: Result<T, MeasurementParseError>) -> Result<T::V, MeasurementFault> {
    match r {
        Ok(t) => Ok(t@),
        Err(e) => Err(e@),
    }
}

/// The markup and encoding fixes applied to a raw measurement before it is read.
pub open spec fn normalized_value(s: Seq<char>) -> Seq<char> {
    let a = replace_all(s, seq![','], seq!['.']);
    let b = replace_all(a, "&lt;span&gt;"@, seq![' ']);
    let c = replace_all(b, "&lt;/span&gt;"@, Seq::empty());
    let d = replace_all(c, "<span>"@, seq![' ']);
    let e = replace_all(d, "</span>"@, Seq::empty());
    replace_all(e, "\u{c2}\u{b0}C"@, "\u{b0}C"@)
}

/// Returns a normalized measurement string.
fn normalize_value(value: &str) -> (r: Vec<char>)
    ensures
        r@ == normalized_value(value@),
{
    let s = chars_of(value);
    let comma = [','];
    let point = ['.'];
    let space = [' '];
    let nothing: [char; 0] = [];
    let span_open_escaped = chars_of("&lt;span&gt;");
    let span_close_escaped = chars_of("&lt;/span&gt;");
    let span_open = chars_of("<span>");
    let span_close = chars_of("</span>");
    let broken_celsius = chars_of("\u{c2}\u{b0}C");
    let celsius = chars_of("\u{b0}C");
    proof {
        reveal_strlit("&lt;span&gt;");
        reveal_strlit("&lt;/span&gt;");
        reveal_strlit("<span>");
        reveal_strlit("</span>");
        reveal_strlit("\u{c2}\u{b0}C");
        assert(comma@ == seq![',']);
        assert(point@ == seq!['.']);
        assert(space@ == seq![' ']);
        assert(nothing@ == Seq::<char>::empty());
    }
    let a = replaced(s.as_slice(), comma.as_slice(), point.as_slice());
    let b = replaced(a.as_slice(), span_open_escaped.as_slice(), space.as_slice());
    let c = replaced(b.as_slice(), span_close_escaped.as_slice(), nothing.as_slice());
    let d = replaced(c.as_slice(), span_open.as_slice(), space.as_slice());
    let e = replaced(d.as_slice(), span_close.as_slice(), nothing.as_slice());
    replaced(e.as_slice(), broken_celsius.as_slice(), celsius.as_slice())
}

/// Characters that can belong to the numeric part of a measurement.
pub open spec fn is_amount_char(c: char) -> bool {
    is_digit(c) || c == '-' || c == '+' || c == '.'
}

/// Where the numeric part of a normalized measurement ends.
pub open spec fn amount_end(n: Seq<char>) -> int {
    first_where(n, |c: char| !is_amount_char(c))
}

/// What splitting a measurement gives: its number text and its unit, if any.
pub open spec fn amount_and_unit(value: Seq<char>) -> Result<(Seq<char>, Option<Seq<char>>), MeasurementFault> {
    let n = trim(normalized_value(value));
    if n.len() == 0 {
        Err(MeasurementFault::Empty)
    } else {
        let k = amount_end(n);
        let a = n.take(k);
        let u = trim(n.skip(k));
        if !float_syntax(a) {
            Err(MeasurementFault::InvalidNumber)
        } else if u.len() == 0 {
            Ok((a, None))
        } else {
            Ok((a, Some(u)))
        }
    }
}

/// Splits a measurement into a number and unit.
fn parse_amount_and_unit(value: &str) -> (r: Result<(Vec<char>, Option<Vec<char>>), MeasurementParseError>)
    ensures
        match (r, amount_and_unit(value@)) {
            (Ok((a, u)), Ok((sa, su))) => a@ == sa && match (u, su) {
                (Some(u), Some(su)) => u@ == su,
                (None, None) => true,
                _ => false,
            },
            (Err(e), Err(f)) => e@ == f,
            _ => false,
        },
        r matches Ok((a, _)) ==> forall|i: int| 0 <= i < a@.len() ==> is_amount_char(#[trigger] a@[i]),
{
    let normalized = normalize_value(value);
    let n = trimmed(normalized.as_slice());
    if n.len() == 0 {
        return Err(MeasurementParseError::Empty);
    }
    let mut k: usize = 0;
    while k < n.len() && ('0' <= n[k] && n[k] <= '9' || n[k] == '-' || n[k] == '+' || n[k] == '.')
        invariant
            k <= n@.len(),
            forall|i: int| 0 <= i < k ==> is_amount_char(#[trigger] n@[i]),
        decreases n@.len() - k,
    {
        k = k + 1;
    }
    proof {
        lemma_first_where(n@, |c: char| !is_amount_char(c), k as int);
    }
    let amount = head_to(n.as_slice(), k);
    if !is_float_text(amount.as_slice()) {
        return Err(MeasurementParseError::InvalidNumber);
    }
    let rest = tail_from(n.as_slice(), k);
    let unit = trimmed(rest.as_slice());
    if unit.len() == 0 {
        Ok((amount, None))
    } else {
        Ok((amount, Some(unit)))
    }
}

proof fn lemma_amount_is_decimal(a: Seq<char>)
    requires
        forall|i: int| 0 <= i < a.len() ==> is_amount_char(#[trigger] a[i]),
        float_syntax(a),
    ensures
        valid_mantissa(unsigned_part(a)),
{
    let u = unsigned_part(a);
    assert forall|i: int| 0 <= i < u.len() implies is_amount_char(#[trigger] u[i]) by {
        if u.len() < a.len() {
            assert(u[i] == a[i + 1]);
        }
    }
    if is_special_word(u) {
        let l = u.map_values(|c: char| ascii_lower(c));
        assert(l.len() == u.len());
        assert(l.len() >= 3);
        assert(l[0] == ascii_lower(u[0]));
        assert(is_amount_char(u[0]));
        assert(false);
    }
    lemma_first_where(u, |c: char| c == 'e' || c == 'E', u.len() as int);
    assert(u.take(u.len() as int) == u);
}

/// Reads a measurement whose unit is `base` (scale 1) or `kilo` (scale 1000), in whole base units.
pub open spec fn scaled_reading(value: Seq<char>, base: Seq<char>, kilo: Seq<char>, expected: Seq<char>) -> Result<int, MeasurementFault> {
    match amount_and_unit(value) {
        Err(f) => Err(f),
        Ok((a, None)) => Err(MeasurementFault::MissingUnit { expected }),
        Ok((a, Some(u))) => {
            if u == kilo || u == base {
                let e: nat = if u == kilo { 3 } else { 0 };
                if rounded_magnitude(unsigned_part(a), e) > i64::MAX {
                    Err(MeasurementFault::InvalidNumber)
                } else {
                    Ok(scaled_value(a, e))
                }
            } else {
                Err(MeasurementFault::UnsupportedUnit { unit: u, expected })
            }
        },
    }
}

fn parse_scaled(value: &str, base: &str, kilo: &str, expected: &'static str) -> (r: Result<i64, MeasurementParseError>)
    ensures
        match (r, scaled_reading(value@, base@, kilo@, expected@)) {
            (Ok(v), Ok(w)) => v == w,
            (Err(e), Err(f)) => e@ == f,
            _ => false,
        },
{
    let (amount, unit) = match parse_amount_and_unit(value) {
        Ok(p) => p,
        Err(e) => {
            return Err(e);
        },
    };
    let unit = match unit {
        Some(u) => u,
        None => {
            return Err(MeasurementParseError::MissingUnit { expected });
        },
    };
    let kilo_chars = chars_of(kilo);
    let base_chars = chars_of(base);
    let e: usize = if same_chars(unit.as_slice(), kilo_chars.as_slice()) {
        3
    } else if same_chars(unit.as_slice(), base_chars.as_slice()) {
        0
    } else {
        return Err(MeasurementParseError::UnsupportedUnit { unit: string_of(unit.as_slice()), expected });
    };
    proof {
        lemma_amount_is_decimal(amount@);
    }
    match scaled_amount(amount.as_slice(), e) {
        Some(v) => Ok(v),
        None => Err(MeasurementParseError::InvalidNumber),
    }
}

/// Reads a measurement whose unit must be exactly `unit`; the number is kept as written.
pub open spec fn plain_reading(value: Seq<char>, unit: Seq<char>) -> Result<Seq<char>, MeasurementFault> {
    match amount_and_unit(value) {
        Err(f) => Err(f),
        Ok((a, None)) => Err(MeasurementFault::MissingUnit { expected: unit }),
        Ok((a, Some(u))) => if u == unit {
            Ok(a)
        } else {
            Err(MeasurementFault::UnsupportedUnit { unit: u, expected: unit })
        },
    }
}

fn parse_plain(value: &str, unit: &'static str) -> (r: Result<NumberText, MeasurementParseError>)
    ensures
        match (r, plain_reading(value@, unit@)) {
            (Ok(v), Ok(w)) => v@ == w,
            (Err(e), Err(f)) => e@ == f,
            _ => false,
        },
{
    let (amount, found) = match parse_amount_and_unit(value) {
        Ok(p) => p,
        Err(e) => {
            return Err(e);
        },
    };
    match found {
        None => Err(MeasurementParseError::MissingUnit { expected: unit }),
        Some(u) => {
            let unit_chars = chars_of(unit);
            if same_chars(u.as_slice(), unit_chars.as_slice()) {
                Ok(NumberText::from_chars(amount.as_slice()))
            } else {
                Err(MeasurementParseError::UnsupportedUnit { unit: string_of(u.as_slice()), expected: unit })
            }
        },
    }
}

/// Reads a percentage: a number, optionally followed by `%` signs.
pub open spec fn percent_reading(value: Seq<char>) -> Result<Seq<char>, MeasurementFault> {
    let amount = trim(strip_end(trim(normalized_value(value)), '%'));
    if amount.len() == 0 {
        Err(MeasurementFault::Empty)
    } else if !float_syntax(amount) {
        Err(MeasurementFault::InvalidNumber)
    } else {
        Ok(amount)
    }
}

/// A measurement type that SmartFox values are read into.
pub trait Measurement: Sized + View {
    /// What reading `value` gives.
    spec fn reading(value: Seq<char>) -> Result<Self::V, MeasurementFault>;

    /// Reads a measurement from SmartFox text.
    fn parse_measurement(value: &str) -> (r: Result<Self, MeasurementParseError>)
        ensures
            outcome(r) == Self::reading(value@),
    ;
}

impl Measurement for Power {
    open spec fn reading(value: Seq<char>) -> Result<Power, MeasurementFault> {
        match scaled_reading(value, "W"@, "kW"@, "W or kW"@) {
            Ok(w) => Ok(Power { watts: w as i64 }),
            Err(f) => Err(f),
        }
    }

    fn parse_measurement(value: &str) -> (r: Result<Power, MeasurementParseError>) {
        match parse_scaled(value, "W", "kW", "W or kW") {
            Ok(w) => Ok(Power { watts: w }),
            Err(e) => Err(e),
        }
    }
}

impl Measurement for Energy {
    open spec fn reading(value: Seq<char>) -> Result<Energy, MeasurementFault> {
        match scaled_reading(value, "Wh"@, "kWh"@, "Wh or kWh"@) {
            Ok(w) => Ok(Energy { watt_hours: w as i64 }),
            Err(f) => Err(f),
        }
    }

    fn parse_measurement(value: &str) -> (r: Result<Energy, MeasurementParseError>) {
        match parse_scaled(value, "Wh", "kWh", "Wh or kWh") {
            Ok(w) => Ok(Energy { watt_hours: w }),
            Err(e) => Err(e),
        }
    }
}

impl Measurement for Percent {
    open spec fn reading(value: Seq<char>) -> Result<Seq<char>, MeasurementFault> {
        percent_reading(value)
    }

    fn parse_measurement(value: &str) -> (r: Result<Percent, MeasurementParseError>) {
        let normalized = normalize_value(value);
        let t = trimmed(normalized.as_slice());
        let s = stripped_end(t.as_slice(), '%');
        let amount = trimmed(s.as_slice());
        if amount.len() == 0 {
            return Err(MeasurementParseError::Empty);
        }
        if !is_float_text(amount.as_slice()) {
            return Err(MeasurementParseError::InvalidNumber);
        }
        Ok(Percent { percent: NumberText::from_chars(amount.as_slice()) })
    }
}

impl Measurement for Temperature {
    open spec fn reading(value: Seq<char>) -> Result<Seq<char>, MeasurementFault> {
        plain_reading(value, "\u{b0}C"@)
    }

    fn parse_measurement(value: &str) -> (r: Result<Temperature, MeasurementParseError>) {
        match parse_plain(value, "\u{b0}C") {
            Ok(n) => Ok(Temperature { celsius: n }),
            Err(e) => Err(e),
        }
    }
}

impl Measurement for Voltage {
    open spec fn reading(value: Seq<char>) -> Result<Seq<char>, MeasurementFault> {
        plain_reading(value, "V"@)
    }

    fn parse_measurement(value: &str) -> (r: Result<Voltage, MeasurementParseError>) {
        match parse_plain(value, "V") {
            Ok(n) => Ok(Voltage { volts: n }),
            Err(e) => Err(e),
        }
    }
}

impl Measurement for Current {
    open spec fn reading(value: Seq<char>) -> Result<Seq<char>, MeasurementFault> {
        plain_reading(value, "A"@)
    }

    fn parse_measurement(value: &str) -> (r: Result<Current, MeasurementParseError>) {
        match parse_plain(value, "A") {
            Ok(n) => Ok(Current { amperes: n }),
            Err(e) => Err(e),
        }
    }
}


impl core::str::FromStr for Power {
    type Err = MeasurementParseError;

    fn from_str(value: &str) -> (r: Result<Power, MeasurementParseError>)
        ensures
            outcome(r) == <Power as Measurement>::reading(value@),
    {
        <Power as Measurement>::parse_measurement(value)
    }
}

impl core::str::FromStr for Energy {
    type Err = MeasurementParseError;

    fn from_str(value: &str) -> (r: Result<Energy, MeasurementParseError>)
        ensures
            outcome(r) == <Energy as Measurement>::reading(value@),
    {
        <Energy as Measurement>::parse_measurement(value)
    }
}

impl core::str::FromStr for Percent {
    type Err = MeasurementParseError;

    fn from_str(value: &str) -> (r: Result<Percent, MeasurementParseError>)
        ensures
            outcome(r) == <Percent as Measurement>::reading(value@),
    {
        <Percent as Measurement>::parse_measurement(value)
    }
}

impl core::str::FromStr for Temperature {
    type Err = MeasurementParseError;

    fn from_str(value: &str) -> (r: Result<Temperature, MeasurementParseError>)
        ensures
            outcome(r) == <Temperature as Measurement>::reading(value@),
    {
        <Temperature as Measurement>::parse_measurement(value)
    }
}

impl core::str::FromStr for Voltage {
    type Err = MeasurementParseError;

    fn from_str(value: &str) -> (r: Result<Voltage, MeasurementParseError>)
        ensures
            outcome(r) == <Voltage as Measurement>::reading(value@),
    {
        <Voltage as Measurement>::parse_measurement(value)
    }
}

impl core::str::FromStr for Current {
    type Err = MeasurementParseError;

    fn from_str(value: &str) -> (r: Result<Current, MeasurementParseError>)
        ensures
            outcome(r) == <Current as Measurement>::reading(value@),
    {
        <Current as Measurement>::parse_measurement(value)
    }
}

/// The characters of an optional string.
pub open spec fn opt_chars(o: Option<String>) -> Option<Seq<char>> {
    match o {
        Some(s) => Some(s@),
        None => None,
    }
}

/// Describes one snapshot of normalized SmartFox data.
#[derive(Clone, Debug, PartialEq)]
pub struct EnergySnapshot {
    /// Device identity and clock information.
    pub system: SystemStatus,
    /// Live power flow across the installation boundary.
    pub power: PowerFlow,
    /// Cumulative energy counters suitable for long-lived consumers.
    pub energy: EnergyTotals,
    /// Battery state selected with the same rules as the SmartFox live view.
    pub battery: Option<BatteryState>,
    /// Solar inverter measurements reported by the device.
    pub inverters: Vec<Inverter>,
    /// Per-phase electrical measurements reported by the device.
    pub phases: Vec<PhaseMeasurement>,
}

/// Describes device identity and clock information.
#[derive(Clone, Debug, PartialEq)]
pub struct SystemStatus {
    /// Calendar date reported by the device.
    pub date: Option<String>,
    /// Clock time reported by the device.
    pub time: Option<String>,
    /// Network address reported by the device, when it reports one that reads as an address.
    pub ip_address: Option<IpAddress>,
    /// Firmware version reported by the device; empty when it reports none.
    pub firmware_version: String,
}

/// Describes live power flow values.
#[derive(Clone, Copy, Debug, PartialEq, Eq)]
pub struct PowerFlow {
    /// Solar production measured by the SmartFox controller.
    pub production: Power,
    /// Signed grid power measured at the grid boundary; positive values are imports.
    pub grid_net: Power,
    /// Non-negative grid import derived from [`PowerFlow::grid_net`].
    pub grid_import: Power,
    /// Non-negative grid export derived from [`PowerFlow::grid_net`].
    pub grid_export: Power,
    /// Signed battery power selected from live-view battery fields; negative values are discharge.
    pub battery_power: Option<Power>,
    /// Site consumption derived from production, grid, and battery power.
    pub consumption: Power,
}

/// Describes cumulative energy counters.
#[derive(Clone, Copy, Debug, PartialEq, Eq)]
pub struct EnergyTotals {
    /// Cumulative energy imported from the grid.
    pub grid_import: Energy,
    /// Cumulative energy exported to the grid.
    pub grid_export: Energy,
    /// Cumulative solar energy summed from inverter counters.
    pub solar_production: Energy,
}

/// Describes the selected battery state.
#[derive(Clone, Debug, PartialEq)]
pub struct BatteryState {
    /// Battery state of charge.
    pub state_of_charge: Percent,
    /// Signed battery power, where negative values represent discharge.
    pub power: Option<Power>,
    /// Battery temperature when available.
    pub temperature: Option<Temperature>,
}

/// Describes one solar inverter.
#[derive(Clone, Copy, Debug, PartialEq, Eq)]
pub struct Inverter {
    /// One-based inverter index from the SmartFox payload.
    pub index: u8,
    /// Live inverter output power.
    pub power: Power,
    /// Cumulative inverter energy counter.
    pub total_energy: Energy,
}

/// Names one AC phase.
#[derive(Clone, Copy, Debug, PartialEq, Eq)]
pub enum GridPhase {
    /// First AC phase.
    L1,
    /// Second AC phase.
    L2,
    /// Third AC phase.
    L3,
}

/// Describes one phase measurement.
#[derive(Clone, Debug, PartialEq)]
pub struct PhaseMeasurement {
    /// Phase identity.
    pub phase: GridPhase,
    /// Phase voltage.
    pub voltage: Voltage,
    /// Phase current.
    pub current: Current,
    /// Signed phase power.
    pub power: Power,
}

/// The texts of a [`SystemStatus`].
pub struct SystemView {
    pub date: Option<Seq<char>>,
    pub time: Option<Seq<char>>,
    pub ip_address: Option<AddressView>,
    pub firmware_version: Seq<char>,
}

/// A [`BatteryState`] with its numbers as text.
pub struct BatteryView {
    pub state_of_charge: Seq<char>,
    pub power: Option<Power>,
    pub temperature: Option<Seq<char>>,
}

/// A [`PhaseMeasurement`] with its numbers as text.
pub struct PhaseView {
    pub phase: GridPhase,
    pub voltage: Seq<char>,
    pub current: Seq<char>,
    pub power: Power,
}

/// An [`EnergySnapshot`] with its texts as character sequences.
pub struct SnapshotView {
    pub system: SystemView,
    pub power: PowerFlow,
    pub energy: EnergyTotals,
    pub battery: Option<BatteryView>,
    pub inverters: Seq<Inverter>,
    pub phases: Seq<PhaseView>,
}

impl View for SystemStatus {
    type V = SystemView;

    open spec fn view(&self) -> SystemView {
        SystemView {
            date: opt_chars(self.date),
            time: opt_chars(self.time),
            ip_address: match self.ip_address {
                Some(a) => Some(a@),
                None => None,
            },
            firmware_version: self.firmware_version@,
        }
    }
}

impl View for BatteryState {
    type V = BatteryView;

    open spec fn view(&self) -> BatteryView {
        BatteryView {
            state_of_charge: self.state_of_charge@,
            power: self.power,
            temperature: match self.temperature {
                Some(t) => Some(t@),
                None => None,
            },
        }
    }
}

impl View for PhaseMeasurement {
    type V = PhaseView;

    open spec fn view(&self) -> PhaseView {
        PhaseView {
            phase: self.phase,
            voltage: self.voltage@,
            current: self.current@,
            power: self.power,
        }
    }
}

impl View for Inverter {
    type V = Inverter;

    open spec fn view(&self) -> Inverter {
        *self
    }
}

impl View for EnergySnapshot {
    type V = SnapshotView;

    open spec fn view(&self) -> SnapshotView {
        SnapshotView {
            system: self.system@,
            power: self.power,
            energy: self.energy,
            battery: match self.battery {
                Some(b) => Some(b@),
                None => None,
            },
            inverters: self.inverters@,
            phases: self.phases@.map_values(|p: PhaseMeasurement| p@),
        }
    }
}

/// Reports model construction failures.
#[derive(Clone, Debug, PartialEq)]
pub enum Error {
    /// Indicates that a required SmartFox field was missing.
    MissingField {
        /// Missing SmartFox field name.
        field: String,
    },
    /// Indicates that a SmartFox field could not be converted.
    InvalidMeasurement {
        /// SmartFox field name.
        field: String,
        /// Raw SmartFox field value.
        value: String,
        /// Measurement parsing failure.
        source: MeasurementParseError,
    },
}

/// A model construction failure, with its texts as character sequences.
pub enum ModelFault {
    MissingField { field: Seq<char> },
    InvalidMeasurement { field: Seq<char>, value: Seq<char>, source: MeasurementFault },
}

impl View for Error {
    type V = ModelFault;

    open spec fn view(&self) -> ModelFault {
        match self {
            Error::MissingField { field } => ModelFault::MissingField { field: field@ },
            Error::InvalidMeasurement { field, value, source } => ModelFault::InvalidMeasurement {
                field: field@,
                value: value@,
                source: source@,
            },
        }
    }
}

/// The view of a model construction outcome.
pub open spec fn model_outcome<T: View>(r: Result<T, Error>) -> Result<T::V, ModelFault> {
    match r {
        Ok(t) => Ok(t@),
        Err(e) => Err(e@),
    }
}

/// Reading `value` of `field` as a `T`.
pub open spec fn field_reading<T: Measurement>(field: Seq<char>, value: Seq<char>) -> Result<T::V, ModelFault> {
    match T::reading(value) {
        Ok(v) => Ok(v),
        Err(f) => Err(ModelFault::InvalidMeasurement { field, value, source: f }),
    }
}

/// Reading the field `field` of `m`, which must be present.
pub open spec fn required_reading<T: Measurement>(m: Map<Seq<char>, Seq<char>>, field: Seq<char>) -> Result<T::V, ModelFault> {
    if m.dom().contains(field) {
        field_reading::<T>(field, m[field])
    } else {
        Err(ModelFault::MissingField { field })
    }
}

/// Reading the field `field` of `m` when it is present.
pub open spec fn optional_reading<T: Measurement>(m: Map<Seq<char>, Seq<char>>, field: Seq<char>) -> Result<Option<T::V>, ModelFault> {
    if m.dom().contains(field) {
        match field_reading::<T>(field, m[field]) {
            Ok(v) => Ok(Some(v)),
            Err(f) => Err(f),
        }
    } else {
        Ok(None)
    }
}

/// Parses one field into the requested measurement type.
fn parse_field<T: Measurement>(field: &str, value: &str) -> (r: Result<T, Error>)
    ensures
        model_outcome(r) == field_reading::<T>(field@, value@),
{
    match T::parse_measurement(value) {
        Ok(v) => Ok(v),
        Err(source) => Err(Error::InvalidMeasurement {
            field: field.to_owned(),
            value: value.to_owned(),
            source,
        }),
    }
}

/// Reads and parses a required measurement field.
fn required_measurement<T: Measurement>(values: &SmartFoxValues, field: &str) -> (r: Result<T, Error>)
    ensures
        model_outcome(r) == required_reading::<T>(values@, field@),
{
    match values.get(field) {
        Some(value) => parse_field(field, value),
        None => Err(Error::MissingField { field: field.to_owned() }),
    }
}

/// Reads and parses an optional measurement field.
fn optional_measurement<T: Measurement>(values: &SmartFoxValues, field: &str) -> (r: Result<Option<T>, Error>)
    ensures
        match (r, optional_reading::<T>(values@, field@)) {
            (Ok(Some(v)), Ok(Some(w))) => v@ == w,
            (Ok(None), Ok(None)) => true,
            (Err(e), Err(f)) => e@ == f,
            _ => false,
        },
{
    match values.get(field) {
        Some(value) => match parse_field::<T>(field, value) {
            Ok(v) => Ok(Some(v)),
            Err(e) => Err(e),
        },
        None => Ok(None),
    }
}

/// Whether `m` holds exactly `v` under `k`.
pub open spec fn holds(m: Map<Seq<char>, Seq<char>>, k: Seq<char>, v: Seq<char>) -> bool {
    m.dom().contains(k) && m[k] == v
}

/// The battery key used by the SmartFox live view for a quantity such as `Power` or `Soc`:
/// `battery1<suffix>` on a Huawei Luna installation with battery product 18, otherwise
/// `battery1<suffix>1` when present, otherwise `battery1<suffix>`.
pub open spec fn battery_key(m: Map<Seq<char>, Seq<char>>, suffix: Seq<char>) -> Seq<char> {
    let is_luna = holds(m, "hidBsHuawei2Luna1"@, seq!['1']) || holds(m, "hidBsHuawei2Luna2"@, seq!['1'])
        || holds(m, "hidBsHuawei2Luna3"@, seq!['1']);
    let plain = "battery1"@ + suffix;
    if is_luna && holds(m, "hidBsProd"@, seq!['1', '8']) {
        plain
    } else if m.dom().contains(plain + seq!['1']) {
        plain + seq!['1']
    } else {
        plain
    }
}

fn holds_value(values: &SmartFoxValues, key: &str, expected: &[char]) -> (r: bool)
    ensures
        r == holds(values@, key@, expected@),
{
    match values.get(key) {
        Some(v) => {
            let cs = chars_of(v);
            same_chars(cs.as_slice(), expected)
        },
        None => false,
    }
}

/// Selects the battery key used by the SmartFox live view.
fn selected_battery_key(values: &SmartFoxValues, suffix: &str) -> (r: String)
    ensures
        r@ == battery_key(values@, suffix@),
{
    let one = ['1'];
    let eighteen = ['1', '8'];
    assert(one@ == seq!['1']);
    assert(eighteen@ == seq!['1', '8']);
    let is_luna = holds_value(values, "hidBsHuawei2Luna1", one.as_slice()) || holds_value(
        values,
        "hidBsHuawei2Luna2",
        one.as_slice(),
    ) || holds_value(values, "hidBsHuawei2Luna3", one.as_slice());
    let mut plain = "battery1".to_owned();
    plain.append(suffix);
    if is_luna && holds_value(values, "hidBsProd", eighteen.as_slice()) {
        return plain;
    }
    let mut preferred = plain.clone();
    push_char(&mut preferred, '1');
    assert(preferred@ =~= plain@ + seq!['1']);
    if values.get(preferred.as_str()).is_some() {
        preferred
    } else {
        plain
    }
}


/// Puts `p` in front of a successful list.
pub open spec fn prepend<T>(p: Seq<T>, r: Result<Seq<T>, ModelFault>) -> Result<Seq<T>, ModelFault> {
    match r {
        Ok(s) => Ok(p + s),
        Err(f) => Err(f),
    }
}

pub open spec fn index_digit(i: u8) -> char {
    if i == 1 {
        '1'
    } else if i == 2 {
        '2'
    } else if i == 3 {
        '3'
    } else if i == 4 {
        '4'
    } else {
        '5'
    }
}

/// `wr<i>PowerValue`.
pub open spec fn inverter_power_key(i: u8) -> Seq<char> {
    "wr"@ + seq![index_digit(i)] + "PowerValue"@
}

/// `wr<i>EnergyValue`.
pub open spec fn inverter_energy_key(i: u8) -> Seq<char> {
    "wr"@ + seq![index_digit(i)] + "EnergyValue"@
}

/// The inverters numbered `i` to 5 that report both power and energy, in order; or the first
/// failure among their fields.
pub open spec fn inverters_from(m: Map<Seq<char>, Seq<char>>, i: u8) -> Result<Seq<Inverter>, ModelFault>
    decreases 6 - i,
{
    if i > 5 || i < 1 {
        Ok(Seq::empty())
    } else {
        match optional_reading::<Power>(m, inverter_power_key(i)) {
            Err(f) => Err(f),
            Ok(p) => match optional_reading::<Energy>(m, inverter_energy_key(i)) {
                Err(f) => Err(f),
                Ok(e) => match (p, e) {
                    (Some(p), Some(e)) => prepend(
                        seq![Inverter { index: i, power: p, total_energy: e }],
                        inverters_from(m, (i + 1) as u8),
                    ),
                    _ => inverters_from(m, (i + 1) as u8),
                },
            },
        }
    }
}

fn digit_char(i: u8) -> (c: char)
    requires
        1 <= i <= 5,
    ensures
        c == index_digit(i),
{
    if i == 1 {
        '1'
    } else if i == 2 {
        '2'
    } else if i == 3 {
        '3'
    } else if i == 4 {
        '4'
    } else {
        '5'
    }
}

fn indexed_key(prefix: &str, i: u8, suffix: &str) -> (k: String)
    requires
        1 <= i <= 5,
    ensures
        k@ == prefix@ + seq![index_digit(i)] + suffix@,
{
    let mut k = prefix.to_owned();
    push_char(&mut k, digit_char(i));
    k.append(suffix);
    k
}

/// Builds inverter measurements from indexed SmartFox fields.
fn inverter_measurements(values: &SmartFoxValues) -> (r: Result<Vec<Inverter>, Error>)
    ensures
        match (r, inverters_from(values@, 1)) {
            (Ok(v), Ok(w)) => v@ == w,
            (Err(e), Err(f)) => e@ == f,
            _ => false,
        },
        r matches Ok(v) ==> v@.len() <= 5,
{
    let mut inverters: Vec<Inverter> = Vec::new();
    let mut index: u8 = 1;
    while index <= 5
        invariant
            1 <= index <= 6,
            inverters@.len() < index,
            inverters_from(values@, 1) == prepend(inverters@, inverters_from(values@, index)),
        decreases 6 - index,
    {
        let power_key = indexed_key("wr", index, "PowerValue");
        let energy_key = indexed_key("wr", index, "EnergyValue");
        let power = match optional_measurement::<Power>(values, power_key.as_str()) {
            Ok(p) => p,
            Err(e) => {
                return Err(e);
            },
        };
        let total_energy = match optional_measurement::<Energy>(values, energy_key.as_str()) {
            Ok(p) => p,
            Err(e) => {
                return Err(e);
            },
        };
        let ghost before = inverters@;
        match (power, total_energy) {
            (Some(power), Some(total_energy)) => {
                inverters.push(Inverter { index, power, total_energy });
                assert(inverters@ == before + seq![Inverter { index, power, total_energy }]);
            },
            _ => {},
        }
        proof {
            match inverters_from(values@, (index + 1) as u8) {
                Ok(rest) => {
                    assert(before + (seq![Inverter { index, power: power->0, total_energy: total_energy->0 }] + rest)
                        == before + seq![Inverter { index, power: power->0, total_energy: total_energy->0 }] + rest);
                },
                Err(_) => {},
            }
        }
        index = index + 1;
    }
    assert(inverters@ + Seq::<Inverter>::empty() == inverters@);
    Ok(inverters)
}

pub open spec fn phase_at(i: int) -> GridPhase {
    if i == 0 {
        GridPhase::L1
    } else if i == 1 {
        GridPhase::L2
    } else {
        GridPhase::L3
    }
}

/// `L1`, `L2` or `L3`.
pub open spec fn phase_label(i: int) -> Seq<char> {
    seq!['L', if i == 0 { '1' } else if i == 1 { '2' } else { '3' }]
}

/// `voltageL<n>Value`.
pub open spec fn voltage_key(i: int) -> Seq<char> {
    "voltage"@ + phase_label(i) + "Value"@
}

/// `ampereL<n>Value`.
pub open spec fn current_key(i: int) -> Seq<char> {
    "ampere"@ + phase_label(i) + "Value"@
}

/// `powerL<n>Value`.
pub open spec fn phase_power_key(i: int) -> Seq<char> {
    "power"@ + phase_label(i) + "Value"@
}

/// The phases from position `i` on (L1, L2, L3) that report voltage, current and power, in
/// order; or the first failure among their fields.
pub open spec fn phases_from(m: Map<Seq<char>, Seq<char>>, i: int) -> Result<Seq<PhaseView>, ModelFault>
    decreases 3 - i,
{
    if i >= 3 || i < 0 {
        Ok(Seq::empty())
    } else {
        match optional_reading::<Voltage>(m, voltage_key(i)) {
            Err(f) => Err(f),
            Ok(v) => match optional_reading::<Current>(m, current_key(i)) {
                Err(f) => Err(f),
                Ok(c) => match optional_reading::<Power>(m, phase_power_key(i)) {
                    Err(f) => Err(f),
                    Ok(p) => match (v, c, p) {
                        (Some(v), Some(c), Some(p)) => prepend(
                            seq![PhaseView { phase: phase_at(i), voltage: v, current: c, power: p }],
                            phases_from(m, i + 1),
                        ),
                        _ => phases_from(m, i + 1),
                    },
                },
            },
        }
    }
}

fn phase_key(prefix: &str, i: usize) -> (k: String)
    requires
        i < 3,
    ensures
        k@ == prefix@ + phase_label(i as int) + "Value"@,
{
    let mut k = prefix.to_owned();
    push_char(&mut k, 'L');
    push_char(&mut k, if i == 0 { '1' } else if i == 1 { '2' } else { '3' });
    k.append("Value");
    assert(k@ =~= prefix@ + phase_label(i as int) + "Value"@);
    k
}

/// Builds phase measurements from SmartFox phase fields.
fn phase_measurements(values: &SmartFoxValues) -> (r: Result<Vec<PhaseMeasurement>, Error>)
    ensures
        match (r, phases_from(values@, 0)) {
            (Ok(v), Ok(w)) => v@.map_values(|p: PhaseMeasurement| p@) == w,
            (Err(e), Err(f)) => e@ == f,
            _ => false,
        },
{
    let mut phases: Vec<PhaseMeasurement> = Vec::new();
    let mut i: usize = 0;
    while i < 3
        invariant
            i <= 3,
            phases_from(values@, 0) == prepend(
                phases@.map_values(|p: PhaseMeasurement| p@),
                phases_from(values@, i as int),
            ),
        decreases 3 - i,
    {
        let voltage_key = phase_key("voltage", i);
        let current_key = phase_key("ampere", i);
        let power_key = phase_key("power", i);
        let voltage = match optional_measurement::<Voltage>(values, voltage_key.as_str()) {
            Ok(p) => p,
            Err(e) => {
                return Err(e);
            },
        };
        let current = match optional_measurement::<Current>(values, current_key.as_str()) {
            Ok(p) => p,
            Err(e) => {
                return Err(e);
            },
        };
        let power = match optional_measurement::<Power>(values, power_key.as_str()) {
            Ok(p) => p,
            Err(e) => {
                return Err(e);
            },
        };
        let phase = if i == 0 {
            GridPhase::L1
        } else if i == 1 {
            GridPhase::L2
        } else {
            GridPhase::L3
        };
        let ghost before = phases@.map_values(|p: PhaseMeasurement| p@);
        match (voltage, current, power) {
            (Some(voltage), Some(current), Some(power)) => {
                let m = PhaseMeasurement { phase, voltage, current, power };
                let ghost mv = m@;
                phases.push(m);
                assert(phases@.map_values(|p: PhaseMeasurement| p@) == before + seq![mv]);
                proof {
                    match phases_from(values@, i + 1) {
                        Ok(rest) => {
                            assert(before + (seq![mv] + rest) == before + seq![mv] + rest);
                        },
                        Err(_) => {},
                    }
                }
            },
            _ => {},
        }
        i = i + 1;
    }
    assert(phases@.map_values(|p: PhaseMeasurement| p@) + Seq::<PhaseView>::empty()
        == phases@.map_values(|p: PhaseMeasurement| p@));
    Ok(phases)
}


/// `x` limited to the range of `i64`.
pub open spec fn clamp_i64(x: int) -> int {
    if x > i64::MAX {
        i64::MAX as int
    } else if x < i64::MIN {
        i64::MIN as int
    } else {
        x
    }
}

/// `x` when positive, otherwise zero, limited to `i64::MAX`.
pub open spec fn positive_part(x: int) -> int {
    if x <= 0 {
        0
    } else {
        clamp_i64(x)
    }
}

/// The sum of the inverters' energy counters, in watt-hours.
pub open spec fn energy_sum(s: Seq<Inverter>) -> int
    decreases s.len(),
{
    if s.len() == 0 {
        0
    } else {
        energy_sum(s.drop_last()) + s.last().total_energy.watt_hours
    }
}

/// The live power flow derived from production, signed grid power and signed battery power:
/// imports are the positive grid power, exports the negated negative grid power, and the site
/// consumes production plus grid minus battery power (an absent battery counting as zero),
/// never less than zero.
pub open spec fn power_flow(production: Power, grid: Power, battery: Option<Power>) -> PowerFlow {
    let b: int = match battery {
        Some(p) => p.watts as int,
        None => 0,
    };
    PowerFlow {
        production,
        grid_net: grid,
        grid_import: Power { watts: positive_part(grid.watts as int) as i64 },
        grid_export: Power { watts: positive_part(-grid.watts) as i64 },
        battery_power: battery,
        consumption: Power { watts: positive_part(production.watts + grid.watts - b) as i64 },
    }
}

/// What `m` holds under `k`, if anything.
pub open spec fn lookup(m: Map<Seq<char>, Seq<char>>, k: Seq<char>) -> Option<Seq<char>> {
    if m.dom().contains(k) {
        Some(m[k])
    } else {
        None
    }
}

/// The snapshot that raw values `m` describe, or the first failure in reading them: production
/// (`hidProduction`), grid power (`hidPower`), battery power and state of charge (by
/// [`battery_key`]), battery temperature (`battery1Temperature`), inverters, phases, grid import
/// (`energyValue`) and grid export (`eToGridValue`).
pub open spec fn snapshot_reading(m: Map<Seq<char>, Seq<char>>) -> Result<SnapshotView, ModelFault> {
    match required_reading::<Power>(m, "hidProduction"@) {
        Err(f) => Err(f),
        Ok(production) => match required_reading::<Power>(m, "hidPower"@) {
            Err(f) => Err(f),
            Ok(grid) => match optional_reading::<Power>(m, battery_key(m, "Power"@)) {
                Err(f) => Err(f),
                Ok(battery_power) => match optional_reading::<Percent>(m, battery_key(m, "Soc"@)) {
                    Err(f) => Err(f),
                    Ok(soc) => match optional_reading::<Temperature>(m, "battery1Temperature"@) {
                        Err(f) => Err(f),
                        Ok(temperature) => match inverters_from(m, 1) {
                            Err(f) => Err(f),
                            Ok(inverters) => match phases_from(m, 0) {
                                Err(f) => Err(f),
                                Ok(phases) => match required_reading::<Energy>(m, "energyValue"@) {
                                    Err(f) => Err(f),
                                    Ok(grid_import) => match required_reading::<Energy>(m, "eToGridValue"@) {
                                        Err(f) => Err(f),
                                        Ok(grid_export) => Ok(SnapshotView {
                                            system: SystemView {
                                                date: lookup(m, "dateValue"@),
                                                time: lookup(m, "timeValue"@),
                                                ip_address: address_reading(m),
                                                firmware_version: version_reading(m),
                                            },
                                            power: power_flow(production, grid, battery_power),
                                            energy: EnergyTotals {
                                                grid_import,
                                                grid_export,
                                                solar_production: Energy {
                                                    watt_hours: clamp_i64(energy_sum(inverters)) as i64,
                                                },
                                            },
                                            battery: match soc {
                                                Some(s) => Some(BatteryView {
                                                    state_of_charge: s,
                                                    power: battery_power,
                                                    temperature,
                                                }),
                                                None => None,
                                            },
                                            inverters,
                                            phases,
                                        }),
                                    },
                                },
                            },
                        },
                    },
                },
            },
        },
    }
}

fn clamped(x: i128) -> (r: i64)
    ensures
        r == clamp_i64(x as int),
{
    if x > i64::MAX as i128 {
        i64::MAX
    } else if x < i64::MIN as i128 {
        i64::MIN
    } else {
        x as i64
    }
}

fn positive(x: i128) -> (r: i64)
    ensures
        r == positive_part(x as int),
{
    if x <= 0 {
        0
    } else {
        clamped(x)
    }
}

fn total_energy(inverters: &Vec<Inverter>) -> (r: i64)
    requires
        inverters@.len() <= 5,
    ensures
        r == clamp_i64(energy_sum(inverters@)),
{
    let mut sum: i128 = 0;
    let mut i: usize = 0;
    while i < inverters.len()
        invariant
            i <= inverters@.len() <= 5,
            sum == energy_sum(inverters@.take(i as int)),
            -(i as int) * 0x8000_0000_0000_0000 <= sum <= (i as int) * 0x8000_0000_0000_0000,
        decreases inverters@.len() - i,
    {
        assert(inverters@.take(i + 1).drop_last() == inverters@.take(i as int));
        sum = sum + inverters[i].total_energy.watt_hours as i128;
        i = i + 1;
    }
    assert(inverters@.take(inverters@.len() as int) == inverters@);
    clamped(sum)
}

fn power_flow_of(production: Power, grid: Power, battery: Option<Power>) -> (r: PowerFlow)
    ensures
        r == power_flow(production, grid, battery),
{
    let b: i128 = match battery {
        Some(p) => p.watts as i128,
        None => 0,
    };
    PowerFlow {
        production,
        grid_net: grid,
        grid_import: Power { watts: positive(grid.watts as i128) },
        grid_export: Power { watts: positive(-(grid.watts as i128)) },
        battery_power: battery,
        consumption: Power { watts: positive(production.watts as i128 + grid.watts as i128 - b) },
    }
}

/// The device's address: the `ipAddress` value where it reads as an IP address.
pub open spec fn address_reading(m: Map<Seq<char>, Seq<char>>) -> Option<AddressView> {
    match lookup(m, "ipAddress"@) {
        Some(t) => ip_value(t),
        None => None,
    }
}

/// The device's firmware version: the `version` value, or empty text without one.
pub open spec fn version_reading(m: Map<Seq<char>, Seq<char>>) -> Seq<char> {
    match lookup(m, "version"@) {
        Some(v) => v,
        None => Seq::empty(),
    }
}

fn address_of(o: Option<&str>) -> (r: Option<IpAddress>)
    ensures
        match o {
            Some(t) => match r {
                Some(a) => ip_value(t@) == Some(a@),
                None => ip_value(t@) is None,
            },
            None => r is None,
        },
{
    match o {
        Some(t) => IpAddress::parse(t),
        None => None,
    }
}

fn version_of(o: Option<&str>) -> (r: String)
    ensures
        r@ == match o {
            Some(s) => s@,
            None => Seq::<char>::empty(),
        },
{
    match o {
        Some(s) => s.to_owned(),
        None => String::new(),
    }
}

fn copied(o: Option<&str>) -> (r: Option<String>)
    ensures
        opt_chars(r) == match o {
            Some(s) => Some(s@),
            None => None::<Seq<char>>,
        },
{
    match o {
        Some(s) => Some(s.to_owned()),
        None => None,
    }
}

impl EnergySnapshot {
    /// Builds a normalized snapshot from raw SmartFox values.
    pub fn from_smartfox_values(values: &SmartFoxValues) -> (r: Result<Self, Error>)
        ensures
            model_outcome(r) == snapshot_reading(values@),
    {
        let production: Power = match required_measurement(values, "hidProduction") {
            Ok(v) => v,
            Err(e) => {
                return Err(e);
            },
        };
        let grid: Power = match required_measurement(values, "hidPower") {
            Ok(v) => v,
            Err(e) => {
                return Err(e);
            },
        };
        let battery_power_key = selected_battery_key(values, "Power");
        let battery_power: Option<Power> = match optional_measurement(values, battery_power_key.as_str()) {
            Ok(v) => v,
            Err(e) => {
                return Err(e);
            },
        };
        let battery_soc_key = selected_battery_key(values, "Soc");
        let battery_soc: Option<Percent> = match optional_measurement(values, battery_soc_key.as_str()) {
            Ok(v) => v,
            Err(e) => {
                return Err(e);
            },
        };
        let battery_temperature: Option<Temperature> = match optional_measurement(
            values,
            "battery1Temperature",
        ) {
            Ok(v) => v,
            Err(e) => {
                return Err(e);
            },
        };
        let inverters = match inverter_measurements(values) {
            Ok(v) => v,
            Err(e) => {
                return Err(e);
            },
        };
        let phases = match phase_measurements(values) {
            Ok(v) => v,
            Err(e) => {
                return Err(e);
            },
        };
        let grid_import: Energy = match required_measurement(values, "energyValue") {
            Ok(v) => v,
            Err(e) => {
                return Err(e);
            },
        };
        let grid_export: Energy = match required_measurement(values, "eToGridValue") {
            Ok(v) => v,
            Err(e) => {
                return Err(e);
            },
        };
        let power = power_flow_of(production, grid, battery_power);
        let energy = EnergyTotals {
            grid_import,
            grid_export,
            solar_production: Energy { watt_hours: total_energy(&inverters) },
        };
        let battery = match battery_soc {
            Some(state_of_charge) => Some(
                BatteryState { state_of_charge, power: battery_power, temperature: battery_temperature },
            ),
            None => None,
        };
        let system = SystemStatus {
            date: copied(values.get("dateValue")),
            time: copied(values.get("timeValue")),
            ip_address: address_of(values.get("ipAddress")),
            firmware_version: version_of(values.get("version")),
        };
        Ok(EnergySnapshot { system, power, energy, battery, inverters, phases })
    }
}


/// The derived power flow balances: import and export are never negative, at most one of them is
/// non-zero, import minus export is the signed grid power (short of its most negative value),
/// and consumption, when not cut at zero, is production plus grid minus battery power.
pub proof fn lemma_power_flow_balances(production: Power, grid: Power, battery: Option<Power>)
    ensures
        ({
            let f = power_flow(production, grid, battery);
            let b: int = match battery {
                Some(p) => p.watts as int,
                None => 0,
            };
            &&& f.grid_import.watts >= 0
            &&& f.grid_export.watts >= 0
            &&& f.grid_import.watts == 0 || f.grid_export.watts == 0
            &&& grid.watts > i64::MIN ==> f.grid_import.watts - f.grid_export.watts == grid.watts
            &&& f.consumption.watts >= 0
            &&& 0 <= production.watts + grid.watts - b <= i64::MAX ==> f.consumption.watts
                == production.watts + grid.watts - b
            &&& f.production == production && f.grid_net == grid && f.battery_power == battery
        }),
{
}

/// The solar production total is the sum of the inverters' counters, whenever that sum fits.
pub proof fn lemma_solar_total_is_inverter_sum(m: Map<Seq<char>, Seq<char>>)
    requires
        snapshot_reading(m) is Ok,
        i64::MIN <= energy_sum(snapshot_reading(m)->Ok_0.inverters) <= i64::MAX,
    ensures
        snapshot_reading(m)->Ok_0.energy.solar_production.watt_hours == energy_sum(
            snapshot_reading(m)->Ok_0.inverters,
        ),
{
}


proof fn lemma_scaled_reading_rounds(value: Seq<char>, base: Seq<char>, kilo: Seq<char>, expected: Seq<char>)
    requires
        scaled_reading(value, base, kilo, expected) is Ok,
    ensures
        amount_and_unit(value) matches Ok((a, Some(u))) && (u == kilo || u == base) && {
            let e: nat = if u == kilo {
                3
            } else {
                0
            };
            let v = unsigned_part(a);
            let n = digits_value(int_part(v) + frac_part(v));
            let d = frac_part(v).len();
            let w = scaled_reading(value, base, kilo, expected)->Ok_0;
            let m: int = if a.len() > 0 && a[0] == '-' {
                -w
            } else {
                w
            };
            &&& m >= 0
            &&& 2 * m * pow10(d) <= 2 * n * pow10(e) + pow10(d)
            &&& 2 * n * pow10(e) + pow10(d) < 2 * (m + 1) * pow10(d)
        },
{
    let nv = trim(normalized_value(value));
    let k = amount_end(nv);
    crate::text::lemma_first_where_bounds(nv, |c: char| !is_amount_char(c));
    let a = nv.take(k);
    assert forall|i: int| 0 <= i < a.len() implies is_amount_char(#[trigger] a[i]) by {
        assert(a[i] == nv[i]);
    }
    lemma_amount_is_decimal(a);
    let u = trim(nv.skip(k));
    let e: nat = if u == kilo {
        3
    } else {
        0
    };
    crate::number::lemma_scaled_value_rounds_to_nearest(a, e);
}

/// A snapshot takes each reading from its own key: production from `hidProduction`, grid power
/// from `hidPower`, grid import from `energyValue`, grid export from `eToGridValue`, the date
/// from `dateValue`, the clock time from `timeValue` (each absent without its key), the firmware
/// version from `version` (empty without it) and the address from `ipAddress`.
pub proof fn lemma_snapshot_reads_own_keys(m: Map<Seq<char>, Seq<char>>)
    requires
        snapshot_reading(m) is Ok,
    ensures
        ({
            let s = snapshot_reading(m)->Ok_0;
            &&& m.dom().contains("hidProduction"@) && Power::reading(m["hidProduction"@]) == Ok::<
                _,
                MeasurementFault,
            >(s.power.production)
            &&& m.dom().contains("hidPower"@) && Power::reading(m["hidPower"@]) == Ok::<_, MeasurementFault>(
                s.power.grid_net,
            )
            &&& m.dom().contains("energyValue"@) && Energy::reading(m["energyValue"@]) == Ok::<
                _,
                MeasurementFault,
            >(s.energy.grid_import)
            &&& m.dom().contains("eToGridValue"@) && Energy::reading(m["eToGridValue"@]) == Ok::<
                _,
                MeasurementFault,
            >(s.energy.grid_export)
            &&& s.system.date == if m.dom().contains("dateValue"@) {
                Some(m["dateValue"@])
            } else {
                None
            }
            &&& s.system.time == if m.dom().contains("timeValue"@) {
                Some(m["timeValue"@])
            } else {
                None
            }
            &&& s.system.firmware_version == if m.dom().contains("version"@) {
                m["version"@]
            } else {
                Seq::empty()
            }
            &&& s.system.ip_address == if m.dom().contains("ipAddress"@) {
                ip_value(m["ipAddress"@])
            } else {
                None
            }
        }),
{
}

/// The keys of a phase's voltage, current and power: `voltageL1Value`, `ampereL1Value`,
/// `powerL1Value` for L1, and likewise for L2 and L3.
pub open spec fn phase_keys(p: GridPhase) -> (Seq<char>, Seq<char>, Seq<char>) {
    match p {
        GridPhase::L1 => ("voltageL1Value"@, "ampereL1Value"@, "powerL1Value"@),
        GridPhase::L2 => ("voltageL2Value"@, "ampereL2Value"@, "powerL2Value"@),
        GridPhase::L3 => ("voltageL3Value"@, "ampereL3Value"@, "powerL3Value"@),
    }
}

/// Whether a phase's measurements are what `m` holds under that phase's own keys.
pub open spec fn phase_read_from_own_keys(m: Map<Seq<char>, Seq<char>>, ph: PhaseView) -> bool {
    let (v, c, w) = phase_keys(ph.phase);
    &&& m.dom().contains(v) && Voltage::reading(m[v]) == Ok::<_, MeasurementFault>(ph.voltage)
    &&& m.dom().contains(c) && Current::reading(m[c]) == Ok::<_, MeasurementFault>(ph.current)
    &&& m.dom().contains(w) && Power::reading(m[w]) == Ok::<_, MeasurementFault>(ph.power)
}

proof fn lemma_phase_keys_literal(i: int)
    requires
        0 <= i < 3,
    ensures
        phase_keys(phase_at(i)) == (voltage_key(i), current_key(i), phase_power_key(i)),
{
    reveal_strlit("voltage");
    reveal_strlit("ampere");
    reveal_strlit("power");
    reveal_strlit("Value");
    reveal_strlit("voltageL1Value");
    reveal_strlit("ampereL1Value");
    reveal_strlit("powerL1Value");
    reveal_strlit("voltageL2Value");
    reveal_strlit("ampereL2Value");
    reveal_strlit("powerL2Value");
    reveal_strlit("voltageL3Value");
    reveal_strlit("ampereL3Value");
    reveal_strlit("powerL3Value");
    let (v, c, w) = phase_keys(phase_at(i));
    assert(v =~= voltage_key(i));
    assert(c =~= current_key(i));
    assert(w =~= phase_power_key(i));
}

proof fn lemma_phases_from_own_keys(m: Map<Seq<char>, Seq<char>>, i: int)
    requires
        0 <= i <= 3,
        phases_from(m, i) is Ok,
    ensures
        forall|j: int| 0 <= j < phases_from(m, i)->Ok_0.len() ==> phase_read_from_own_keys(
            m,
            #[trigger] phases_from(m, i)->Ok_0[j],
        ),
    decreases 3 - i,
{
    if i < 3 {
        lemma_phases_from_own_keys(m, i + 1);
        lemma_phase_keys_literal(i);
        let ps = phases_from(m, i)->Ok_0;
        let rest = phases_from(m, i + 1)->Ok_0;
        if ps.len() > rest.len() {
            assert(ps == seq![ps[0]] + rest);
            assert(phase_read_from_own_keys(m, ps[0]));
            assert forall|j: int| 0 <= j < ps.len() implies phase_read_from_own_keys(m, #[trigger] ps[j]) by {
                if j > 0 {
                    assert(ps[j] == rest[j - 1]);
                }
            }
        }
    }
}

/// The keys of an inverter's power and energy counter: `wr1PowerValue` and `wr1EnergyValue` for
/// inverter 1, and likewise up to inverter 5.
pub open spec fn inverter_keys(index: u8) -> (Seq<char>, Seq<char>) {
    if index == 1 {
        ("wr1PowerValue"@, "wr1EnergyValue"@)
    } else if index == 2 {
        ("wr2PowerValue"@, "wr2EnergyValue"@)
    } else if index == 3 {
        ("wr3PowerValue"@, "wr3EnergyValue"@)
    } else if index == 4 {
        ("wr4PowerValue"@, "wr4EnergyValue"@)
    } else {
        ("wr5PowerValue"@, "wr5EnergyValue"@)
    }
}

/// Whether an inverter's readings are what `m` holds under that inverter's own keys.
pub open spec fn inverter_read_from_own_keys(m: Map<Seq<char>, Seq<char>>, v: Inverter) -> bool {
    let (p, e) = inverter_keys(v.index);
    &&& 1 <= v.index <= 5
    &&& m.dom().contains(p) && Power::reading(m[p]) == Ok::<_, MeasurementFault>(v.power)
    &&& m.dom().contains(e) && Energy::reading(m[e]) == Ok::<_, MeasurementFault>(v.total_energy)
}

proof fn lemma_inverter_keys_literal(i: u8)
    requires
        1 <= i <= 5,
    ensures
        inverter_keys(i) == (inverter_power_key(i), inverter_energy_key(i)),
{
    reveal_strlit("wr");
    reveal_strlit("PowerValue");
    reveal_strlit("EnergyValue");
    reveal_strlit("wr1PowerValue");
    reveal_strlit("wr1EnergyValue");
    reveal_strlit("wr2PowerValue");
    reveal_strlit("wr2EnergyValue");
    reveal_strlit("wr3PowerValue");
    reveal_strlit("wr3EnergyValue");
    reveal_strlit("wr4PowerValue");
    reveal_strlit("wr4EnergyValue");
    reveal_strlit("wr5PowerValue");
    reveal_strlit("wr5EnergyValue");
    let (p, e) = inverter_keys(i);
    assert(p =~= inverter_power_key(i));
    assert(e =~= inverter_energy_key(i));
}

proof fn lemma_inverters_from_own_keys(m: Map<Seq<char>, Seq<char>>, i: u8)
    requires
        1 <= i <= 6,
        inverters_from(m, i) is Ok,
    ensures
        forall|j: int| 0 <= j < inverters_from(m, i)->Ok_0.len() ==> inverter_read_from_own_keys(
            m,
            #[trigger] inverters_from(m, i)->Ok_0[j],
        ),
    decreases 6 - i,
{
    if i <= 5 {
        lemma_inverters_from_own_keys(m, (i + 1) as u8);
        lemma_inverter_keys_literal(i);
        let vs = inverters_from(m, i)->Ok_0;
        let rest = inverters_from(m, (i + 1) as u8)->Ok_0;
        if vs.len() > rest.len() {
            assert(vs == seq![vs[0]] + rest);
            assert(inverter_read_from_own_keys(m, vs[0]));
            assert forall|j: int| 0 <= j < vs.len() implies inverter_read_from_own_keys(m, #[trigger] vs[j]) by {
                if j > 0 {
                    assert(vs[j] == rest[j - 1]);
                }
            }
        }
    }
}

/// Every phase of a snapshot is read from that phase's own keys (`voltageL2Value`,
/// `ampereL2Value`, `powerL2Value` for L2), and every inverter from its own numbered keys
/// (`wr3PowerValue`, `wr3EnergyValue` for inverter 3).
pub proof fn lemma_snapshot_lists_read_own_keys(m: Map<Seq<char>, Seq<char>>)
    requires
        snapshot_reading(m) is Ok,
    ensures
        forall|j: int| 0 <= j < snapshot_reading(m)->Ok_0.phases.len() ==> phase_read_from_own_keys(
            m,
            #[trigger] snapshot_reading(m)->Ok_0.phases[j],
        ),
        forall|j: int| 0 <= j < snapshot_reading(m)->Ok_0.inverters.len() ==> inverter_read_from_own_keys(
            m,
            #[trigger] snapshot_reading(m)->Ok_0.inverters[j],
        ),
{
    lemma_phases_from_own_keys(m, 0);
    lemma_inverters_from_own_keys(m, 1);
}

/// Whether the device reports a Huawei Luna battery installation with battery product 18.
pub open spec fn luna_product_18(m: Map<Seq<char>, Seq<char>>) -> bool {
    &&& (holds(m, "hidBsHuawei2Luna1"@, "1"@) || holds(m, "hidBsHuawei2Luna2"@, "1"@) || holds(
        m,
        "hidBsHuawei2Luna3"@,
        "1"@,
    ))
    &&& holds(m, "hidBsProd"@, "18"@)
}

/// A snapshot's battery power comes from `battery1Power` on a Luna installation with product 18,
/// otherwise from `battery1Power1` when the device reports it, otherwise from `battery1Power`;
/// its state of charge likewise from `battery1Soc`/`battery1Soc1`, and a battery state exists
/// exactly when a state of charge is reported.
pub proof fn lemma_battery_reads_live_view_keys(m: Map<Seq<char>, Seq<char>>)
    requires
        snapshot_reading(m) is Ok,
    ensures
        ({
            let s = snapshot_reading(m)->Ok_0;
            let pk = if luna_product_18(m) {
                "battery1Power"@
            } else if m.dom().contains("battery1Power1"@) {
                "battery1Power1"@
            } else {
                "battery1Power"@
            };
            let sk = if luna_product_18(m) {
                "battery1Soc"@
            } else if m.dom().contains("battery1Soc1"@) {
                "battery1Soc1"@
            } else {
                "battery1Soc"@
            };
            &&& match s.power.battery_power {
                Some(p) => m.dom().contains(pk) && Power::reading(m[pk]) == Ok::<_, MeasurementFault>(p),
                None => !m.dom().contains(pk),
            }
            &&& match s.battery {
                Some(b) => m.dom().contains(sk) && Percent::reading(m[sk]) == Ok::<_, MeasurementFault>(
                    b.state_of_charge,
                ) && b.power == s.power.battery_power,
                None => !m.dom().contains(sk),
            }
        }),
{
    reveal_strlit("1");
    reveal_strlit("18");
    reveal_strlit("battery1");
    reveal_strlit("Power");
    reveal_strlit("Soc");
    reveal_strlit("battery1Power");
    reveal_strlit("battery1Power1");
    reveal_strlit("battery1Soc");
    reveal_strlit("battery1Soc1");
    assert("1"@ =~= seq!['1']);
    assert("18"@ =~= seq!['1', '8']);
    assert("battery1"@ + "Power"@ =~= "battery1Power"@);
    assert("battery1"@ + "Power"@ + seq!['1'] =~= "battery1Power1"@);
    assert("battery1"@ + "Soc"@ =~= "battery1Soc"@);
    assert("battery1"@ + "Soc"@ + seq!['1'] =~= "battery1Soc1"@);
}

/// A power reading is the written amount in watts (times 1000 for `kW`), rounded to the nearest
/// watt with halves away from zero: with `n` the number that the amount's digits write and `d`
/// its count of digits after the point, the reading's magnitude `m` satisfies
/// `m - 1/2 <= n * 10^e / 10^d < m + 1/2`.
pub proof fn lemma_power_reading_rounds_to_nearest_watt(value: Seq<char>)
    requires
        Power::reading(value) is Ok,
    ensures
        amount_and_unit(value) matches Ok((a, Some(u))) && (u == "kW"@ || u == "W"@) && {
            let e: nat = if u == "kW"@ {
                3
            } else {
                0
            };
            let v = unsigned_part(a);
            let n = digits_value(int_part(v) + frac_part(v));
            let d = frac_part(v).len();
            let w = Power::reading(value)->Ok_0.watts;
            let m: int = if a.len() > 0 && a[0] == '-' {
                -w
            } else {
                w as int
            };
            &&& m >= 0
            &&& 2 * m * pow10(d) <= 2 * n * pow10(e) + pow10(d)
            &&& 2 * n * pow10(e) + pow10(d) < 2 * (m + 1) * pow10(d)
        },
{
    lemma_scaled_reading_rounds(value, "W"@, "kW"@, "W or kW"@);
}

/// An energy reading is the written amount in watt-hours (times 1000 for `kWh`), rounded to the
/// nearest watt-hour with halves away from zero.
pub proof fn lemma_energy_reading_rounds_to_nearest_watt_hour(value: Seq<char>)
    requires
        Energy::reading(value) is Ok,
    ensures
        amount_and_unit(value) matches Ok((a, Some(u))) && (u == "kWh"@ || u == "Wh"@) && {
            let e: nat = if u == "kWh"@ {
                3
            } else {
                0
            };
            let v = unsigned_part(a);
            let n = digits_value(int_part(v) + frac_part(v));
            let d = frac_part(v).len();
            let w = Energy::reading(value)->Ok_0.watt_hours;
            let m: int = if a.len() > 0 && a[0] == '-' {
                -w
            } else {
                w as int
            };
            &&& m >= 0
            &&& 2 * m * pow10(d) <= 2 * n * pow10(e) + pow10(d)
            &&& 2 * n * pow10(e) + pow10(d) < 2 * (m + 1) * pow10(d)
        },
{
    lemma_scaled_reading_rounds(value, "Wh"@, "kWh"@, "Wh or kWh"@);
}

/// A plain decimal amount: an optional sign, then digits with at most one point among them and
/// at least one digit, such as `1500` or `-0.5`.
pub open spec fn decimal_literal(t: Seq<char>) -> bool {
    valid_mantissa(unsigned_part(t))
}

/// A unit as it follows a number: not empty, without white space at either end, and without the
/// characters that begin a markup or encoding fix (`,`, `&`, `<`, `\u{c2}`).
pub open spec fn plain_unit(u: Seq<char>) -> bool {
    &&& u.len() > 0
    &&& !is_space(u[0])
    &&& !is_space(u.last())
    &&& forall|i: int| 0 <= i < u.len() ==> !is_fix_start(#[trigger] u[i])
}

/// The first characters of the markup and encoding fixes applied before a measurement is read.
pub open spec fn is_fix_start(c: char) -> bool {
    c == ',' || c == '&' || c == '<' || c == '\u{c2}'
}

/// A character that std's float parser can read as part of a number: a digit, a sign, a point
/// or an ASCII letter.
pub open spec fn is_number_char(c: char) -> bool {
    is_digit(c) || is_sign(c) || c == '.' || ('a' <= c && c <= 'z') || ('A' <= c && c <= 'Z')
}

/// A text without the first characters of the markup fixes is left as it is by them.
proof fn lemma_normalized_unchanged(s: Seq<char>)
    requires
        forall|i: int| 0 <= i < s.len() ==> !is_fix_start(#[trigger] s[i]),
    ensures
        normalized_value(s) == s,
{
    reveal_strlit("&lt;span&gt;");
    reveal_strlit("&lt;/span&gt;");
    reveal_strlit("<span>");
    reveal_strlit("</span>");
    reveal_strlit("\u{c2}\u{b0}C");
    lemma_replace_all_absent(s, seq![','], seq!['.']);
    lemma_replace_all_absent(s, "&lt;span&gt;"@, seq![' ']);
    lemma_replace_all_absent(s, "&lt;/span&gt;"@, Seq::empty());
    lemma_replace_all_absent(s, "<span>"@, seq![' ']);
    lemma_replace_all_absent(s, "</span>"@, Seq::empty());
    lemma_replace_all_absent(s, "\u{c2}\u{b0}C"@, "\u{b0}C"@);
}

/// A plain decimal is a non-empty run of amount characters that std's float parser accepts.
proof fn lemma_decimal_literal_chars(t: Seq<char>)
    requires
        decimal_literal(t),
    ensures
        t.len() > 0,
        float_syntax(t),
        forall|i: int| 0 <= i < t.len() ==> is_amount_char(#[trigger] t[i]),
{
    let u = unsigned_part(t);
    let d = dot_index(u);
    lemma_first_where_bounds(u, |c: char| c == '.');
    assert forall|i: int| 0 <= i < u.len() implies is_amount_char(#[trigger] u[i]) by {
        if i < d {
            assert(u.take(d)[i] == u[i]);
        } else if i > d {
            assert(u.skip(d + 1)[i - d - 1] == u[i]);
        }
    }
    assert forall|i: int| 0 <= i < t.len() implies is_amount_char(#[trigger] t[i]) by {
        if u.len() < t.len() && i > 0 {
            assert(t[i] == u[i - 1]);
        }
    }
    lemma_first_where(u, |c: char| c == 'e' || c == 'E', u.len() as int);
    assert(u.take(u.len() as int) == u);
}

/// Text that std's float parser accepts is non-empty and made of number characters.
proof fn lemma_float_syntax_chars(x: Seq<char>)
    requires
        float_syntax(x),
    ensures
        x.len() > 0,
        forall|i: int| 0 <= i < x.len() ==> is_number_char(#[trigger] x[i]),
{
    let u = unsigned_part(x);
    if is_special_word(u) {
        let l = u.map_values(|c: char| ascii_lower(c));
        assert(l.len() >= 3);
        assert forall|i: int| 0 <= i < u.len() implies is_number_char(#[trigger] u[i]) by {
            assert(l[i] == ascii_lower(u[i]));
            assert('a' <= l[i] && l[i] <= 'z');
        }
    } else {
        let k = exp_index(u);
        lemma_first_where_bounds(u, |c: char| c == 'e' || c == 'E');
        let m = u.take(k);
        let d = dot_index(m);
        lemma_first_where_bounds(m, |c: char| c == '.');
        assert(m.len() > 0);
        assert forall|i: int| 0 <= i < u.len() implies is_number_char(#[trigger] u[i]) by {
            if i < k {
                assert(m[i] == u[i]);
                if i < d {
                    assert(m.take(d)[i] == m[i]);
                } else if i > d {
                    assert(m.skip(d + 1)[i - d - 1] == m[i]);
                }
            } else if i > k {
                let v = u.skip(k + 1);
                assert(v[i - k - 1] == u[i]);
                if unsigned_part(v).len() < v.len() && i - k - 1 > 0 {
                    assert(unsigned_part(v)[i - k - 2] == v[i - k - 1]);
                } else if unsigned_part(v).len() == v.len() {
                    assert(unsigned_part(v)[i - k - 1] == v[i - k - 1]);
                }
            }
        }
    }
    assert forall|i: int| 0 <= i < x.len() implies is_number_char(#[trigger] x[i]) by {
        if u.len() < x.len() && i > 0 {
            assert(x[i] == u[i - 1]);
        }
    }
}

/// A plain decimal followed by a space and a unit splits into that decimal and that unit; alone
/// it splits into the decimal and no unit.
proof fn lemma_amount_and_unit_split(t: Seq<char>, u: Seq<char>)
    requires
        decimal_literal(t),
        plain_unit(u),
    ensures
        amount_and_unit(t + seq![' '] + u) == Ok::<_, MeasurementFault>((t, Some(u))),
        amount_and_unit(t) == Ok::<_, MeasurementFault>((t, None::<Seq<char>>)),
{
    lemma_decimal_literal_chars(t);
    let v = t + seq![' '] + u;
    assert forall|i: int| 0 <= i < v.len() implies !is_fix_start(#[trigger] v[i]) by {
        if i < t.len() {
            assert(v[i] == t[i]);
        } else if i > t.len() {
            assert(v[i] == u[i - t.len() - 1]);
        }
    }
    assert forall|i: int| 0 <= i < t.len() implies !is_fix_start(#[trigger] t[i]) by {
        assert(is_amount_char(t[i]));
    }
    lemma_normalized_unchanged(v);
    lemma_normalized_unchanged(t);
    assert(v[0] == t[0]);
    assert(v.last() == u.last());
    assert(is_amount_char(t[0]));
    assert(is_amount_char(t.last()));
    lemma_trim_unchanged(v);
    lemma_trim_unchanged(t);
    assert forall|i: int| 0 <= i < t.len() implies !is_amount_char(#[trigger] v[i]) == false by {
        assert(v[i] == t[i]);
    }
    lemma_first_where(v, |c: char| !is_amount_char(c), t.len() as int);
    lemma_first_where(t, |c: char| !is_amount_char(c), t.len() as int);
    assert(v.take(t.len() as int) =~= t);
    assert(v.skip(t.len() as int) =~= seq![' '] + u);
    lemma_trim_start_one(u);
    lemma_trim_unchanged(u);
    assert(trim_end(u) == u);
    assert(t.take(t.len() as int) =~= t);
    assert(t.skip(t.len() as int) =~= Seq::<char>::empty());
}

/// Power readings by unit: a plain decimal amount followed by a space and `W` reads as that many
/// watts, followed by `kW` as a thousand times as many, either rounded to the whole watt (an
/// amount too large for `i64` is refused as an invalid number); any other unit is refused as
/// unsupported, naming it; an amount without a unit is refused as missing its unit.
pub proof fn lemma_power_reading_by_unit(t: Seq<char>, u: Seq<char>)
    requires
        decimal_literal(t),
        plain_unit(u),
    ensures
        Power::reading(t + seq![' '] + u) == if u == "W"@ || u == "kW"@ {
            let e: nat = if u == "kW"@ {
                3
            } else {
                0
            };
            if rounded_magnitude(unsigned_part(t), e) > i64::MAX {
                Err(MeasurementFault::InvalidNumber)
            } else {
                Ok(Power { watts: scaled_value(t, e) as i64 })
            }
        } else {
            Err(MeasurementFault::UnsupportedUnit { unit: u, expected: "W or kW"@ })
        },
        Power::reading(t) == Err::<Power, _>(MeasurementFault::MissingUnit { expected: "W or kW"@ }),
{
    lemma_amount_and_unit_split(t, u);
}

/// Percentage readings: a number that std's float parser accepts reads as itself, whether a `%`
/// follows it directly, follows it after a space with a space before it, or is left out; a lone
/// `%`, like empty text, is refused as empty.
pub proof fn lemma_percent_sign_is_optional(x: Seq<char>)
    requires
        float_syntax(x),
    ensures
        Percent::reading(x) == Ok::<_, MeasurementFault>(x),
        Percent::reading(x + seq!['%']) == Ok::<_, MeasurementFault>(x),
        Percent::reading(seq![' '] + x + seq![' ', '%']) == Ok::<_, MeasurementFault>(x),
        Percent::reading(seq!['%']) == Err::<Seq<char>, _>(MeasurementFault::Empty),
        Percent::reading(Seq::empty()) == Err::<Seq<char>, _>(MeasurementFault::Empty),
{
    lemma_float_syntax_chars(x);
    assert(!is_space(x[0]) && x[0] != '%' && !is_fix_start(x[0]));
    assert(is_number_char(x.last()));
    assert(!is_space(x.last()) && x.last() != '%');
    assert forall|i: int| 0 <= i < x.len() implies !is_fix_start(#[trigger] x[i]) by {
        assert(is_number_char(x[i]));
    }
    // The number alone.
    lemma_normalized_unchanged(x);
    lemma_trim_unchanged(x);
    assert(strip_end(x, '%') == x);
    // The number and `%`.
    let a = x + seq!['%'];
    assert forall|i: int| 0 <= i < a.len() implies !is_fix_start(#[trigger] a[i]) by {
        if i < x.len() {
            assert(a[i] == x[i]);
        }
    }
    lemma_normalized_unchanged(a);
    assert(a[0] == x[0]);
    lemma_trim_unchanged(a);
    assert(a.drop_last() =~= x);
    assert(strip_end(a, '%') == x);
    // A space, the number, a space and `%`.
    let r = x + seq![' ', '%'];
    let b = seq![' '] + r;
    assert(b =~= seq![' '] + x + seq![' ', '%']);
    assert forall|i: int| 0 <= i < b.len() implies !is_fix_start(#[trigger] b[i]) by {
        if 0 < i <= x.len() {
            assert(b[i] == x[i - 1]);
        }
    }
    lemma_normalized_unchanged(b);
    assert(r[0] == x[0]);
    lemma_trim_start_one(r);
    assert(trim_end(r) == r);
    let c = x + seq![' '];
    assert(r.drop_last() =~= c);
    assert(strip_end(c, '%') == c);
    assert(strip_end(r, '%') == c);
    assert(c[0] == x[0]);
    assert(trim_start(c) == c);
    lemma_trim_end_one(x);
    // A lone `%`, and nothing.
    let p = seq!['%'];
    lemma_normalized_unchanged(p);
    lemma_trim_unchanged(p);
    assert(p.drop_last() =~= Seq::<char>::empty());
    assert(strip_end(p, '%') == Seq::<char>::empty());
    lemma_normalized_unchanged(Seq::empty());
}

/// The position of a phase: 0 for L1, 1 for L2, 2 for L3.
pub open spec fn phase_index(p: GridPhase) -> int {
    match p {
        GridPhase::L1 => 0,
        GridPhase::L2 => 1,
        GridPhase::L3 => 2,
    }
}

proof fn lemma_phases_from_ordered(m: Map<Seq<char>, Seq<char>>, i: int)
    requires
        0 <= i <= 3,
        phases_from(m, i) is Ok,
    ensures
        ({
            let ps = phases_from(m, i)->Ok_0;
            &&& ps.len() <= 3 - i
            &&& forall|j: int| 0 <= j < ps.len() ==> i <= phase_index((#[trigger] ps[j]).phase)
            &&& forall|j: int, k: int| 0 <= j < k < ps.len() ==> phase_index((#[trigger] ps[j]).phase)
                < phase_index((#[trigger] ps[k]).phase)
        }),
    decreases 3 - i,
{
    if i < 3 {
        lemma_phases_from_ordered(m, i + 1);
        assert(phase_index(phase_at(i)) == i);
        let ps = phases_from(m, i)->Ok_0;
        let rest = phases_from(m, i + 1)->Ok_0;
        if ps.len() > rest.len() {
            assert forall|j: int| 0 < j < ps.len() implies ps[j] == rest[j - 1] by {
                assert(ps == seq![ps[0]] + rest);
            }
        }
    }
}

proof fn lemma_inverters_from_ordered(m: Map<Seq<char>, Seq<char>>, i: u8)
    requires
        1 <= i <= 6,
        inverters_from(m, i) is Ok,
    ensures
        ({
            let vs = inverters_from(m, i)->Ok_0;
            &&& vs.len() <= 6 - i
            &&& forall|j: int| 0 <= j < vs.len() ==> i <= (#[trigger] vs[j]).index <= 5
            &&& forall|j: int, k: int| 0 <= j < k < vs.len() ==> (#[trigger] vs[j]).index < (#[trigger] vs[k]).index
        }),
    decreases 6 - i,
{
    if i <= 5 {
        lemma_inverters_from_ordered(m, (i + 1) as u8);
        let vs = inverters_from(m, i)->Ok_0;
        let rest = inverters_from(m, (i + 1) as u8)->Ok_0;
        if vs.len() > rest.len() {
            assert forall|j: int| 0 < j < vs.len() implies vs[j] == rest[j - 1] by {
                assert(vs == seq![vs[0]] + rest);
            }
        }
    }
}

/// A snapshot lists each phase at most once, in the order L1, L2, L3, and each inverter at most
/// once, by increasing index from 1 to 5.
pub proof fn lemma_snapshot_lists_ordered(m: Map<Seq<char>, Seq<char>>)
    requires
        snapshot_reading(m) is Ok,
    ensures
        ({
            let s = snapshot_reading(m)->Ok_0;
            &&& s.phases.len() <= 3
            &&& forall|j: int, k: int| 0 <= j < k < s.phases.len() ==> phase_index((#[trigger] s.phases[j]).phase)
                < phase_index((#[trigger] s.phases[k]).phase)
            &&& s.inverters.len() <= 5
            &&& forall|j: int| 0 <= j < s.inverters.len() ==> 1 <= (#[trigger] s.inverters[j]).index <= 5
            &&& forall|j: int, k: int| 0 <= j < k < s.inverters.len() ==> (#[trigger] s.inverters[j]).index
                < (#[trigger] s.inverters[k]).index
        }),
{
    lemma_phases_from_ordered(m, 0);
    lemma_inverters_from_ordered(m, 1);
}

} // verus!
