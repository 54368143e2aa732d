use bambu_connect::config::Config;

#[test]
fn default_config_is_first_run() {
    let c = Config::default();
    assert!(c.is_first_run);
    assert_eq!(c.bambu_info.jwt, "");
    assert_eq!(c.bambu_info.refresh_token, "");
    assert_eq!(c.bambu_info.jwt_expires_at, 0);
    assert_eq!(c.bambu_info.jwt_last_refresh, 0);
    assert_eq!(c.bambu_info.refresh_token_expires_at, 0);
    assert!(c.bambu_devices.is_empty());
}
