use hafox::model::{
    Current, Energy, MeasurementParseError, NumberText, Percent, Power, Temperature, Voltage,
};

fn watts(text: &str) -> Result<i64, MeasurementParseError> {
    text.parse::<Power>().map(|p| p.watts)
}

#[test]
fn power_units_scale_to_watts() {
    assert_eq!(watts("2.00 kW"), Ok(2000));
    assert_eq!(watts("-500 W"), Ok(-500));
    assert_eq!(watts("34 W"), Ok(34));
    assert_eq!(watts("+1.5kW"), Ok(1500));
    assert_eq!(watts(".5 kW"), Ok(500));
    assert_eq!(watts("7. W"), Ok(7));
}

#[test]
fn power_rounds_to_nearest_watt_halves_away_from_zero() {
    assert_eq!(watts("1.2345 kW"), Ok(1235));
    assert_eq!(watts("-1.2345 kW"), Ok(-1235));
    assert_eq!(watts("1.2344 kW"), Ok(1234));
    assert_eq!(watts("0.4 W"), Ok(0));
    assert_eq!(watts("0.5 W"), Ok(1));
    assert_eq!(watts("-0.5 W"), Ok(-1));
    assert_eq!(watts("0.0004999 kW"), Ok(0));
    assert_eq!(watts("0.0005 kW"), Ok(1));
}

#[test]
fn power_reads_device_markup_and_commas() {
    assert_eq!(watts("0,5 kW"), Ok(500));
    assert_eq!(watts("0.00 &lt;span&gt;kW&lt;/span&gt;"), Ok(0));
    assert_eq!(watts("1.10 <span>kW</span>"), Ok(1100));
    assert_eq!(watts("  12 W  "), Ok(12));
}

#[test]
fn power_errors() {
    assert_eq!(watts(""), Err(MeasurementParseError::Empty));
    assert_eq!(watts("   "), Err(MeasurementParseError::Empty));
    assert_eq!(watts("W"), Err(MeasurementParseError::InvalidNumber));
    assert_eq!(watts("1.2.3 W"), Err(MeasurementParseError::InvalidNumber));
    assert_eq!(watts("- W"), Err(MeasurementParseError::InvalidNumber));
    assert_eq!(
        watts("5"),
        Err(MeasurementParseError::MissingUnit {
            expected: "W or kW"
        })
    );
    assert_eq!(
        watts("5 MW"),
        Err(MeasurementParseError::UnsupportedUnit {
            unit: "MW".to_owned(),
            expected: "W or kW"
        })
    );
    assert_eq!(
        watts("99999999999999999999 W"),
        Err(MeasurementParseError::InvalidNumber)
    );
    assert_eq!(watts("9223372036854775807 W"), Ok(i64::MAX));
    assert_eq!(watts("-9223372036854775807 W"), Ok(-i64::MAX));
    assert_eq!(
        watts("9223372036854775807.5 W"),
        Err(MeasurementParseError::InvalidNumber)
    );
}

#[test]
fn energy_units_scale_to_watt_hours() {
    assert_eq!("100.000 kWh".parse::<Energy>(), Ok(Energy { watt_hours: 100_000 }));
    assert_eq!("25 Wh".parse::<Energy>(), Ok(Energy { watt_hours: 25 }));
    assert_eq!("13499.8 kWh".parse::<Energy>(), Ok(Energy { watt_hours: 13_499_800 }));
    assert_eq!(
        "25 kW".parse::<Energy>(),
        Err(MeasurementParseError::UnsupportedUnit {
            unit: "kW".to_owned(),
            expected: "Wh or kWh"
        })
    );
    assert_eq!(
        "25".parse::<Energy>(),
        Err(MeasurementParseError::MissingUnit {
            expected: "Wh or kWh"
        })
    );
}

#[test]
fn percent_keeps_the_number() {
    let p: Percent = "80%".parse().unwrap();
    assert_eq!(p.percent.as_str(), "80");
    let p: Percent = "  49.0 % ".parse().unwrap();
    assert_eq!(p.percent.as_str(), "49.0");
    let p: Percent = "32".parse().unwrap();
    assert_eq!(p.percent.as_str(), "32");
    let p: Percent = "1e2%%".parse().unwrap();
    assert_eq!(p.percent.as_str(), "1e2");
    assert_eq!("%".parse::<Percent>(), Err(MeasurementParseError::Empty));
    assert_eq!(
        "abc%".parse::<Percent>(),
        Err(MeasurementParseError::InvalidNumber)
    );
}

#[test]
fn temperature_voltage_current_units() {
    let t: Temperature = "30 °C".parse().unwrap();
    assert_eq!(t.celsius.as_str(), "30");
    let t: Temperature = "31Â°C".parse().unwrap();
    assert_eq!(t.celsius.as_str(), "31");
    assert_eq!(
        "31 F".parse::<Temperature>(),
        Err(MeasurementParseError::UnsupportedUnit {
            unit: "F".to_owned(),
            expected: "°C"
        })
    );
    assert_eq!(
        "31".parse::<Temperature>(),
        Err(MeasurementParseError::MissingUnit { expected: "°C" })
    );
    let v: Voltage = "235.0 V".parse().unwrap();
    assert_eq!(v.volts.as_str(), "235.0");
    let c: Current = "1,66 A".parse().unwrap();
    assert_eq!(c.amperes.as_str(), "1.66");
    assert_eq!(
        "1.66 V".parse::<Current>(),
        Err(MeasurementParseError::UnsupportedUnit {
            unit: "V".to_owned(),
            expected: "A"
        })
    );
}

#[test]
fn number_text_follows_float_syntax() {
    for good in ["1", "-1.5", "+.5", "7.", "1e5", "2.5E-3", "inf", "-Infinity", "NaN"] {
        let n = NumberText::new(good).expect(good);
        assert_eq!(n.as_str(), good);
        assert!(good.parse::<f64>().is_ok(), "{good}");
    }
    for bad in ["", ".", "+", "1.2.3", "e5", "1e", "1e+", "--1", "infinit", "1 "] {
        assert!(NumberText::new(bad).is_none(), "{bad}");
        assert!(bad.parse::<f64>().is_err(), "{bad}");
    }
}

#[test]
fn power_reading_by_unit() {
    for (t, w, kw) in [("1500", 1500, 1_500_000), ("-0.5", -1, -500), ("+2.25", 2, 2250)] {
        assert_eq!(watts(&format!("{t} W")), Ok(w));
        assert_eq!(watts(&format!("{t} kW")), Ok(kw));
        assert_eq!(
            watts(&format!("{t} Wh")),
            Err(MeasurementParseError::UnsupportedUnit {
                unit: "Wh".to_owned(),
                expected: "W or kW"
            })
        );
        assert_eq!(
            watts(t),
            Err(MeasurementParseError::MissingUnit {
                expected: "W or kW"
            })
        );
    }
}

#[test]
fn percent_sign_is_optional() {
    for x in ["80", "12.5", "-3", "1e2"] {
        let plain: Percent = x.parse().unwrap();
        let signed: Percent = format!("{x}%").parse().unwrap();
        let spaced: Percent = format!(" {x} %").parse().unwrap();
        assert_eq!(plain.percent.as_str(), x);
        assert_eq!(signed, plain);
        assert_eq!(spaced, plain);
    }
    assert_eq!("".parse::<Percent>(), Err(MeasurementParseError::Empty));
    assert_eq!("%".parse::<Percent>(), Err(MeasurementParseError::Empty));
}
