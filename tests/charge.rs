use plan_a::charge::{
    charge_step, level_from_capture, parse_battery_level, separation_needs_enabling, ChargeStep,
    LEVEL_PATTERN, SEPARATION_LEVEL,
};

#[test]
fn battery_level_is_read_from_dumpsys() {
    let output = "Current Battery Service state:\n  AC powered: false\n  level: 85\n  scale: 100\n";
    assert_eq!(parse_battery_level(output), Some(85));
    assert_eq!(parse_battery_level("level: 0"), Some(0));
    assert_eq!(parse_battery_level("level: 255"), Some(255));
}

#[test]
fn unreadable_battery_level_is_none() {
    assert_eq!(parse_battery_level("level: 300"), None);
    assert_eq!(parse_battery_level("no battery here"), None);
    assert_eq!(parse_battery_level("level: x"), None);
    assert_eq!(LEVEL_PATTERN, "level: (\\d+)");
}

#[test]
fn captured_digits_parse_as_u8() {
    assert_eq!(level_from_capture("7"), Some(7));
    assert_eq!(level_from_capture("+7"), Some(7));
    assert_eq!(level_from_capture("007"), Some(7));
    assert_eq!(level_from_capture(""), None);
    assert_eq!(level_from_capture("+"), None);
    assert_eq!(level_from_capture("256"), None);
    assert_eq!(level_from_capture("-1"), None);
}

#[test]
fn separation_follows_the_threshold() {
    assert_eq!(SEPARATION_LEVEL, 70);
    assert_eq!(charge_step(0), ChargeStep::SeparationOff);
    assert_eq!(charge_step(69), ChargeStep::SeparationOff);
    assert_eq!(charge_step(70), ChargeStep::CheckSwitch);
    assert_eq!(charge_step(100), ChargeStep::CheckSwitch);
    assert!(separation_needs_enabling("0"));
    assert!(!separation_needs_enabling("1"));
    assert!(!separation_needs_enabling(""));
}
