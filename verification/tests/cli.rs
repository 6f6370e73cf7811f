use aegisdb::cli::{parse_cli_line, CliCommand, CliNumber, CliUsage};

fn words(c: &CliCommand) -> String {
    format!("{:?}", c)
}

#[test]
fn blank_lines() {
    assert!(matches!(parse_cli_line(""), CliCommand::Empty));
    assert!(matches!(parse_cli_line("  \t \n"), CliCommand::Empty));
}

#[test]
fn raw_commands() {
    match parse_cli_line("get key1") {
        CliCommand::Get { key, cf } => {
            assert_eq!(key, "key1");
            assert_eq!(cf, "default");
        }
        other => panic!("unexpected {}", words(&other)),
    }
    match parse_cli_line("  SET   k   v   write  ") {
        CliCommand::Put { key, value, cf } => {
            assert_eq!((key.as_str(), value.as_str(), cf.as_str()), ("k", "v", "write"));
        }
        other => panic!("unexpected {}", words(&other)),
    }
    match parse_cli_line("Delete k lock") {
        CliCommand::Del { key, cf } => assert_eq!((key.as_str(), cf.as_str()), ("k", "lock")),
        other => panic!("unexpected {}", words(&other)),
    }
    match parse_cli_line("scan a 5") {
        CliCommand::Scan { start_key, limit, cf } => {
            assert_eq!((start_key.as_str(), limit, cf.as_str()), ("a", 5, "default"));
        }
        other => panic!("unexpected {}", words(&other)),
    }
}

#[test]
fn scan_limit_defaults_to_ten() {
    for bad in ["x", "-1", "4294967296", "+"] {
        match parse_cli_line(&format!("SCAN a {}", bad)) {
            CliCommand::Scan { limit, .. } => assert_eq!(limit, 10),
            other => panic!("unexpected {}", words(&other)),
        }
    }
    match parse_cli_line("SCAN a +4294967295") {
        CliCommand::Scan { limit, .. } => assert_eq!(limit, 4294967295),
        other => panic!("unexpected {}", words(&other)),
    }
}

#[test]
fn usage_lines() {
    assert!(matches!(parse_cli_line("GET"), CliCommand::Usage(CliUsage::Get)));
    assert!(matches!(parse_cli_line("SET k"), CliCommand::Usage(CliUsage::Put)));
    assert!(matches!(parse_cli_line("DEL"), CliCommand::Usage(CliUsage::Del)));
    assert!(matches!(parse_cli_line("SCAN a"), CliCommand::Usage(CliUsage::Scan)));
    assert!(matches!(parse_cli_line("KVGET k"), CliCommand::Usage(CliUsage::KvGet)));
    assert!(matches!(parse_cli_line("KVSCAN a 1"), CliCommand::Usage(CliUsage::KvScan)));
    assert!(matches!(parse_cli_line("KVPREWRITE p 1 2 k"), CliCommand::Usage(CliUsage::KvPrewrite)));
    assert!(matches!(parse_cli_line("KVCOMMIT 1 2"), CliCommand::Usage(CliUsage::KvCommit)));
}

#[test]
fn transactional_commands() {
    match parse_cli_line("kvget key1 2000") {
        CliCommand::KvGet { key, version } => assert_eq!((key.as_str(), version), ("key1", 2000)),
        other => panic!("unexpected {}", words(&other)),
    }
    match parse_cli_line("KVSCAN a zz 18446744073709551615") {
        CliCommand::KvScan { start_key, limit, version } => {
            assert_eq!((start_key.as_str(), limit, version), ("a", 10, u64::MAX));
        }
        other => panic!("unexpected {}", words(&other)),
    }
    match parse_cli_line("KVPREWRITE primary_key 1000 3000 key1 value1") {
        CliCommand::KvPrewrite { primary_key, start_version, lock_ttl, mutations, missing_value } => {
            assert_eq!((primary_key.as_str(), start_version, lock_ttl), ("primary_key", 1000, 3000));
            assert_eq!(mutations, vec![("key1".to_string(), "value1".to_string())]);
            assert_eq!(missing_value, None);
        }
        other => panic!("unexpected {}", words(&other)),
    }
    match parse_cli_line("KVPREWRITE p 7 ttl a 1 b 2 c") {
        CliCommand::KvPrewrite { lock_ttl, mutations, missing_value, .. } => {
            assert_eq!(lock_ttl, 3000);
            assert_eq!(
                mutations,
                vec![("a".to_string(), "1".to_string()), ("b".to_string(), "2".to_string())]
            );
            assert_eq!(missing_value, Some("c".to_string()));
        }
        other => panic!("unexpected {}", words(&other)),
    }
    match parse_cli_line("KVCOMMIT 1000 2000 key1 key2") {
        CliCommand::KvCommit { start_version, commit_version, keys } => {
            assert_eq!((start_version, commit_version), (1000, 2000));
            assert_eq!(keys, vec!["key1".to_string(), "key2".to_string()]);
        }
        other => panic!("unexpected {}", words(&other)),
    }
}

#[test]
fn invalid_numbers() {
    assert!(matches!(parse_cli_line("KVGET k v1"), CliCommand::InvalidNumber(CliNumber::Version)));
    assert!(matches!(parse_cli_line("KVGET k 18446744073709551616"), CliCommand::InvalidNumber(CliNumber::Version)));
    assert!(matches!(parse_cli_line("KVSCAN a 1 x"), CliCommand::InvalidNumber(CliNumber::Version)));
    assert!(matches!(parse_cli_line("KVPREWRITE p x 1 k v"), CliCommand::InvalidNumber(CliNumber::StartVersion)));
    assert!(matches!(parse_cli_line("KVCOMMIT x 2 k"), CliCommand::InvalidNumber(CliNumber::StartVersion)));
    assert!(matches!(parse_cli_line("KVCOMMIT 1 -2 k"), CliCommand::InvalidNumber(CliNumber::CommitVersion)));
}

#[test]
fn other_commands() {
    assert!(matches!(parse_cli_line("quit"), CliCommand::Quit));
    assert!(matches!(parse_cli_line("Exit"), CliCommand::Quit));
    assert!(matches!(parse_cli_line("q"), CliCommand::Quit));
    assert!(matches!(parse_cli_line("help"), CliCommand::Help));
    assert!(matches!(parse_cli_line("?"), CliCommand::Help));
    match parse_cli_line("frobnicate x") {
        CliCommand::Unknown(w) => assert_eq!(w, "frobnicate"),
        other => panic!("unexpected {}", words(&other)),
    }
}

#[test]
fn unicode_whitespace_separates_words() {
    match parse_cli_line("set\u{3000}clé\u{a0}wert\u{2003}\u{85}lock") {
        CliCommand::Put { key, value, cf } => {
            assert_eq!((key.as_str(), value.as_str(), cf.as_str()), ("clé", "wert", "lock"));
        }
        other => panic!("unexpected {}", words(&other)),
    }
    assert!(matches!(parse_cli_line("\u{2028}\u{1680}"), CliCommand::Empty));
}
