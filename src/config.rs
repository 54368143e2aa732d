//! The settings that the application keeps between runs.
use crate::devices::BambuDevice;
use vstd::prelude::*;

verus! {

/// The stored credential and its timing.
pub struct BambuInfo {
    pub jwt: String,
    pub refresh_token: String,
    pub refresh_token_expires_at: i64,
    pub jwt_last_refresh: i64,
    pub jwt_expires_at: i64,
}

/// All stored settings.
pub struct Config {
    pub is_first_run: bool,
    pub bambu_info: BambuInfo,
    pub bambu_devices: Vec<BambuDevice>,
}

impl Default for Config {
    /// Settings for a first run: no credential, no devices.
    fn default() -> (r: Config)
        ensures
            r.is_first_run,
            r.bambu_info.jwt@.len() == 0,
            r.bambu_info.refresh_token@.len() == 0,
            r.bambu_info.refresh_token_expires_at == 0,
            r.bambu_info.jwt_last_refresh == 0,
            r.bambu_info.jwt_expires_at == 0,
            r.bambu_devices@.len() == 0,
    {
        Config {
            is_first_run: true,
            bambu_info: BambuInfo {
                jwt: String::new(),
                refresh_token: String::new(),
                refresh_token_expires_at: 0,
                jwt_last_refresh: 0,
                jwt_expires_at: 0,
            },
            bambu_devices: Vec::new(),
        }
    }
}

} // verus!
