use viator::config::{ConfigError, GridConfig, Handedness, NumericWidth, UpAxis};

#[test]
fn resolve_accepts_exactly_one_of_each_pair() {
    let cfg = GridConfig::resolve(true, false, true, false, false, true).unwrap();
    assert_eq!(cfg.up_axis, UpAxis::YUp);
    assert_eq!(cfg.numeric_width, NumericWidth::Width32);
    assert_eq!(cfg.handedness, Handedness::RightHanded);

    let cfg = GridConfig::resolve(false, true, false, true, true, false).unwrap();
    assert_eq!(cfg.up_axis, UpAxis::ZUp);
    assert_eq!(cfg.numeric_width, NumericWidth::Width64);
    assert_eq!(cfg.handedness, Handedness::LeftHanded);
}

#[test]
fn resolve_rejects_both_up_axes() {
    let r = GridConfig::resolve(true, true, true, false, true, false);
    assert_eq!(r, Err(ConfigError::UpAxisSelection));
}

#[test]
fn resolve_rejects_no_up_axis() {
    let r = GridConfig::resolve(false, false, true, false, true, false);
    assert_eq!(r, Err(ConfigError::UpAxisSelection));
}

#[test]
fn resolve_rejects_bad_numeric_width() {
    let r = GridConfig::resolve(true, false, true, true, true, false);
    assert_eq!(r, Err(ConfigError::NumericWidthSelection));
    let r = GridConfig::resolve(true, false, false, false, true, false);
    assert_eq!(r, Err(ConfigError::NumericWidthSelection));
}

#[test]
fn resolve_rejects_bad_handedness() {
    let r = GridConfig::resolve(true, false, true, false, true, true);
    assert_eq!(r, Err(ConfigError::HandednessSelection));
    let r = GridConfig::resolve(true, false, true, false, false, false);
    assert_eq!(r, Err(ConfigError::HandednessSelection));
}

#[test]
fn resolve_reports_the_first_failing_pair() {
    let r = GridConfig::resolve(false, false, true, true, false, false);
    assert_eq!(r, Err(ConfigError::UpAxisSelection));
}
