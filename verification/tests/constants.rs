use rtk_core::constants::{
    CONFIG_TOML, DEFAULT_HISTORY_DAYS, FILTERS_TOML, HISTORY_DB, RTK_DATA_DIR, RTK_META_COMMANDS,
    TRUSTED_FILTERS_JSON,
};

#[test]
fn names_and_numbers_are_fixed() {
    assert_eq!(RTK_DATA_DIR, "rtk");
    assert_eq!(HISTORY_DB, "history.db");
    assert_eq!(CONFIG_TOML, "config.toml");
    assert_eq!(FILTERS_TOML, "filters.toml");
    assert_eq!(TRUSTED_FILTERS_JSON, "trusted_filters.json");
    assert_eq!(DEFAULT_HISTORY_DAYS, 90);
    assert_eq!(RTK_META_COMMANDS.len(), 21);
    assert!(RTK_META_COMMANDS.contains(&"hook-audit"));
    assert!(!RTK_META_COMMANDS.contains(&"git"));
}
