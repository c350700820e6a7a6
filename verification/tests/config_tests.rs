use std::path::Path;

use backup_config::config::ServerConfig;
use backup_config::config::ServerConfigPublic;
use backup_config::errors::ConfigError;
use backup_config::loader::classify_path;

const GOOD_SOURCE: &str = "max_backup_bytes = 10000\nretention_days = 100\nbackup_dir = \"backups\"\nio_threads = 4\n";

#[test]
fn read_config_file_invalid() {
    let path = Path::new("/tmp/asdfklasdfjaklsdfjlk");
    let res = classify_path("/tmp/asdfklasdfjaklsdfjlk", false, false);
    let err = res.unwrap();
    assert!(matches!(err, ConfigError::NotFound(_)));
    assert_eq!(
        err.message(),
        &format!("Config file at {:?} does not exist", path)
    );
}

#[test]
fn read_config_file_no_file() {
    let path = Path::new("/bin");
    let res = classify_path("/bin", true, false);
    let err = res.unwrap();
    assert!(matches!(err, ConfigError::NotAFile(_)));
    assert_eq!(
        err.message(),
        &format!("Config file at {:?} is not a file", path)
    );
}

#[test]
fn read_config_file_ok() {
    let res = ServerConfig::from_source(GOOD_SOURCE);
    assert_eq!(
        res.unwrap(),
        ServerConfig {
            max_backup_bytes: 10_000,
            retention_days: 100,
            backup_dir: String::from("backups"),
            io_threads: 4,
        }
    );
}

#[test]
fn readable_path_yields_no_error() {
    assert!(classify_path("/etc/backup.toml", true, true).is_none());
}

#[test]
fn missing_entry_wins_over_everything() {
    // The first check decides, whatever the second claims.
    let err = classify_path("gone", false, true).unwrap();
    assert!(matches!(err, ConfigError::NotFound(_)));
}

#[test]
fn not_found_message_contains_the_path() {
    let err = classify_path("/some/odd path/config-01.toml", false, false).unwrap();
    assert!(err.message().contains("/some/odd path/config-01.toml"));
}

#[test]
fn quoted_paths_are_escaped_like_a_debug_printer() {
    for raw in ["a\"b", "a\\b", "a\nb", "a\tb", "a\rb"] {
        let path = Path::new(raw);
        let err = classify_path(raw, false, false).unwrap();
        assert_eq!(
            err.message(),
            &format!("Config file at {:?} does not exist", path)
        );
    }
}

#[test]
fn io_error_messages_carry_the_description() {
    let open = ConfigError::open_failed("permission denied (os error 13)");
    assert!(matches!(open, ConfigError::IoError(_)));
    assert_eq!(
        open.message().as_str(),
        "Could not open config file: permission denied (os error 13)"
    );
    let read = ConfigError::read_failed("stream did not contain valid UTF-8");
    assert!(matches!(read, ConfigError::IoError(_)));
    assert_eq!(
        read.message().as_str(),
        "Could not read config file: stream did not contain valid UTF-8"
    );
}

#[test]
fn missing_any_required_key_is_a_parse_error() {
    let sources = [
        "retention_days = 100\nbackup_dir = \"backups\"\nio_threads = 4\n",
        "max_backup_bytes = 10000\nbackup_dir = \"backups\"\nio_threads = 4\n",
        "max_backup_bytes = 10000\nretention_days = 100\nio_threads = 4\n",
        "max_backup_bytes = 10000\nretention_days = 100\nbackup_dir = \"backups\"\n",
    ];
    for source in sources {
        let res = ServerConfig::from_source(source);
        match res {
            Err(ConfigError::ParseError(m)) => {
                assert!(m.starts_with("Could not deserialize config file: "))
            }
            other => panic!("expected a parse error, got {:?}", other),
        }
    }
}

#[test]
fn empty_source_is_a_parse_error() {
    assert!(matches!(
        ServerConfig::from_source(""),
        Err(ConfigError::ParseError(_))
    ));
}

#[test]
fn comments_blank_lines_and_spacing_are_accepted() {
    let source = "# backup server configuration\r\n\r\n  max_backup_bytes\t=  10000  \r\nretention_days = 100\n   # comment after blank space is fine when first\nbackup_dir = \"backups\"\r\nio_threads = 4";
    let cfg = ServerConfig::from_source(source).unwrap();
    assert_eq!(cfg.max_backup_bytes, 10_000);
    assert_eq!(cfg.retention_days, 100);
    assert_eq!(cfg.backup_dir, "backups");
    assert_eq!(cfg.io_threads, 4);
}

#[test]
fn unknown_keys_are_ignored() {
    let source = "max_backup_bytes = 10000\nretention_days = 100\ncompression = \"zstd\"\nverbosity = 3\nbackup_dir = \"backups\"\nio_threads = 4\n";
    let cfg = ServerConfig::from_source(source).unwrap();
    assert_eq!(cfg.max_backup_bytes, 10_000);
}

#[test]
fn malformed_lines_are_parse_errors() {
    let tails = "retention_days = 100\nbackup_dir = \"backups\"\nio_threads = 4\n";
    let bad_sources = [
        // no assignment on the line
        format!("max_backup_bytes\n{}", tails),
        // empty key
        format!("= 10000\n{}", tails),
        // wrong type for an integer key
        format!("max_backup_bytes = \"many\"\n{}", tails),
        // unquoted string value
        format!("max_backup_bytes = 10000\nretention_days = 100\nbackup_dir = backups\nio_threads = 4\n"),
        // escape sequences are not part of the grammar
        format!("max_backup_bytes = 10000\nretention_days = 100\nbackup_dir = \"a\\\\b\"\nio_threads = 4\n"),
        // duplicate key
        format!("max_backup_bytes = 1\nmax_backup_bytes = 2\n{}", tails),
        // unknown key with a malformed value
        format!("max_backup_bytes = 10000\nnote = oops\n{}", tails),
    ];
    for source in bad_sources.iter() {
        assert!(matches!(
            ServerConfig::from_source(source),
            Err(ConfigError::ParseError(_))
        ));
    }
}

#[test]
fn integer_bounds_are_enforced() {
    let max = "max_backup_bytes = 18446744073709551615\nretention_days = 4294967295\nbackup_dir = \"backups\"\nio_threads = 4\n";
    let cfg = ServerConfig::from_source(max).unwrap();
    assert_eq!(cfg.max_backup_bytes, u64::MAX);
    assert_eq!(cfg.retention_days, u32::MAX);

    let over_u64 = "max_backup_bytes = 18446744073709551616\nretention_days = 100\nbackup_dir = \"backups\"\nio_threads = 4\n";
    assert!(matches!(
        ServerConfig::from_source(over_u64),
        Err(ConfigError::ParseError(_))
    ));

    let over_u32 = "max_backup_bytes = 10000\nretention_days = 4294967296\nbackup_dir = \"backups\"\nio_threads = 4\n";
    assert!(matches!(
        ServerConfig::from_source(over_u32),
        Err(ConfigError::ParseError(_))
    ));
}

#[test]
fn zero_values_are_not_rejected() {
    let source = "max_backup_bytes = 0\nretention_days = 0\nbackup_dir = \"\"\nio_threads = 0\n";
    let cfg = ServerConfig::from_source(source).unwrap();
    assert_eq!(cfg.max_backup_bytes, 0);
    assert_eq!(cfg.retention_days, 0);
    assert_eq!(cfg.backup_dir, "");
    assert_eq!(cfg.io_threads, 0);
}

#[test]
fn loading_is_deterministic() {
    let first = ServerConfig::from_source(GOOD_SOURCE).unwrap();
    let second = ServerConfig::from_source(GOOD_SOURCE).unwrap();
    assert_eq!(first, second);
}

#[test]
fn projection_copies_the_two_public_fields() {
    let cfg = ServerConfig {
        max_backup_bytes: 65_536,
        retention_days: 180,
        backup_dir: String::from("/var/backups"),
        io_threads: 8,
    };
    let public = ServerConfigPublic::from(&cfg);
    assert_eq!(public.max_backup_bytes, 65_536);
    assert_eq!(public.retention_days, 180);
}

#[test]
fn projection_ignores_the_private_fields() {
    let a = ServerConfig {
        max_backup_bytes: 1,
        retention_days: 2,
        backup_dir: String::from("/one"),
        io_threads: 3,
    };
    let b = ServerConfig {
        max_backup_bytes: 1,
        retention_days: 2,
        backup_dir: String::from("/another/place"),
        io_threads: 99,
    };
    assert_eq!(ServerConfigPublic::from(&a), ServerConfigPublic::from(&b));
}

#[test]
fn serialized_projection_uses_camel_case_keys() {
    let public = ServerConfigPublic {
        max_backup_bytes: 10_000,
        retention_days: 100,
    };
    assert_eq!(
        public.to_json(),
        "{\"maxBackupBytes\":10000,\"retentionDays\":100}"
    );
}

#[test]
fn serialized_projection_never_names_private_fields() {
    let values = [
        (0u64, 0u32),
        (10_000, 100),
        (u64::MAX, u32::MAX),
        (123_456_789_012_345, 7),
    ];
    for (bytes, days) in values {
        let public = ServerConfigPublic {
            max_backup_bytes: bytes,
            retention_days: days,
        };
        let json = public.to_json();
        assert!(!json.contains("backup_dir"));
        assert!(!json.contains("io_threads"));
    }
}
