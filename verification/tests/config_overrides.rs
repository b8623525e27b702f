//! The configuration override rules: numeric parses, trimming, and the
//! startup-fatal refusal of an unparseable override.

use stratum::config::{
    apply_overrides, parse_u32, parse_u64, ApiConfig, Config, ConfigOverrides, NodeConfig,
    PoolConfig, PortDifficulty, WorkerConfig,
};

fn base_config() -> Config {
    Config {
        grin_pool: PoolConfig {
            edge_bits: 29,
            log_dir: String::from("/var/log"),
            data_dir: String::from("/data"),
            data_temp_dir: String::from("/data/tmp"),
            pool: String::from("pool-a"),
        },
        grin_node: NodeConfig {
            address: String::from("127.0.0.1"),
            stratum_port: 13416,
            login: String::from("node"),
            password: String::from("pass"),
        },
        workers: WorkerConfig {
            listen_address: String::from("0.0.0.0"),
            port_difficulty: PortDifficulty {
                port: 3333,
                difficulty: 8,
            },
            diff_adjust: true,
            expect_shares_1m: 4,
        },
        api: ApiConfig {
            listen_address: String::from("0.0.0.0"),
            api_port: 13423,
        },
    }
}

fn no_overrides() -> ConfigOverrides {
    ConfigOverrides {
        difficulty: None,
        expect_shares: None,
        grin_address: None,
        edge_bits: None,
        pool: None,
    }
}

#[test]
fn no_overrides_keeps_everything() {
    let c = base_config();
    let out = apply_overrides(c.clone(), no_overrides()).unwrap();
    assert_eq!(out, c);
}

#[test]
fn numeric_overrides_replace_their_fields() {
    let mut ov = no_overrides();
    ov.difficulty = Some(String::from("1234"));
    ov.expect_shares = Some(String::from("60"));
    ov.edge_bits = Some(String::from("31"));
    let out = apply_overrides(base_config(), ov).unwrap();
    assert_eq!(out.workers.port_difficulty.difficulty, 1234);
    assert_eq!(out.workers.expect_shares_1m, 60);
    assert_eq!(out.grin_pool.edge_bits, 31);
    // Untouched fields stay.
    assert_eq!(out.workers.port_difficulty.port, 3333);
    assert_eq!(out.api, base_config().api);
}

#[test]
fn address_override_replaces_as_given() {
    let mut ov = no_overrides();
    ov.grin_address = Some(String::from("10.0.0.9"));
    let out = apply_overrides(base_config(), ov).unwrap();
    assert_eq!(out.grin_node.address, "10.0.0.9");
}

#[test]
fn pool_override_is_trimmed() {
    let mut ov = no_overrides();
    ov.pool = Some(String::from("  pool-b \n"));
    let out = apply_overrides(base_config(), ov).unwrap();
    assert_eq!(out.grin_pool.pool, "pool-b");
    // Trimming removes Unicode whitespace too, as the standard trim does.
    let mut ov2 = no_overrides();
    ov2.pool = Some(String::from("\u{2003} pool-c\u{a0}"));
    let out2 = apply_overrides(base_config(), ov2).unwrap();
    assert_eq!(out2.grin_pool.pool, "pool-c");
}

#[test]
fn unparseable_override_is_fatal() {
    let mut ov = no_overrides();
    ov.difficulty = Some(String::from("12x"));
    assert!(apply_overrides(base_config(), ov).is_err());
    let mut ov2 = no_overrides();
    ov2.expect_shares = Some(String::from(""));
    assert!(apply_overrides(base_config(), ov2).is_err());
    let mut ov3 = no_overrides();
    ov3.edge_bits = Some(String::from("4294967296"));
    assert!(apply_overrides(base_config(), ov3).is_err());
}

#[test]
fn unsigned_parses_match_the_standard_rules() {
    assert_eq!(parse_u64("0"), Some(0));
    assert_eq!(parse_u64("+7"), Some(7));
    assert_eq!(parse_u64("18446744073709551615"), Some(u64::MAX));
    assert_eq!(parse_u64("18446744073709551616"), None);
    assert_eq!(parse_u64(""), None);
    assert_eq!(parse_u64("+"), None);
    assert_eq!(parse_u64("-1"), None);
    assert_eq!(parse_u64(" 1"), None);
    assert_eq!(parse_u32("4294967295"), Some(u32::MAX));
    assert_eq!(parse_u32("4294967296"), None);
}
