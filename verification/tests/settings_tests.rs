use gamedig::settings::{RequestSettings, TimeoutSettings, DEFAULT_RETRIES, DEFAULT_TIMEOUT_MS};

#[test]
fn defaults_apply_per_field() {
    let t = TimeoutSettings::new(Some(100), None, Some(300), None);
    assert_eq!(t.get_connect_ms(), 100);
    assert_eq!(t.get_read_ms(), DEFAULT_TIMEOUT_MS);
    assert_eq!(t.get_write_ms(), 300);
    assert_eq!(t.get_retries(), DEFAULT_RETRIES);
}

#[test]
fn default_settings_use_constants() {
    let t = TimeoutSettings::default();
    assert_eq!(t.get_connect_ms(), DEFAULT_TIMEOUT_MS);
    assert_eq!(t.get_read_ms(), DEFAULT_TIMEOUT_MS);
    assert_eq!(t.get_write_ms(), DEFAULT_TIMEOUT_MS);
    assert_eq!(t.get_retries(), DEFAULT_RETRIES);
}

#[test]
fn retries_or_default() {
    let t = TimeoutSettings::new(None, None, None, Some(4));
    assert_eq!(TimeoutSettings::get_retries_or_default(&Some(t)), 4);
    assert_eq!(TimeoutSettings::get_retries_or_default(&None), DEFAULT_RETRIES);
}

#[test]
fn request_settings_default() {
    let r = RequestSettings::default();
    assert_eq!(r.hostname, "gamedig");
    assert_eq!(r.protocol_version, -1);
}
