use db_sync::cli_parser::{CliParser, FailKind};
use db_sync::config::{Config, ConfigError, DEPRECATION_NOTICE};
use db_sync::schema::{SchemaRegistry, TableSchema};
use db_sync::yml_parser::{ConfigYml, DbCred, MySqlCredentials, SqliteCredentials};

fn mysql_cred() -> DbCred {
    DbCred::Mysql(MySqlCredentials {
        host: String::from("localhost"),
        user: String::from("root"),
        password: String::from("pw"),
        database: String::from("game"),
        port: 3306,
    })
}

fn sqlite_cred() -> DbCred {
    DbCred::Sqlite(SqliteCredentials { file_path: String::from("./data/game.db") })
}

fn yml(db: DbCred) -> ConfigYml {
    ConfigYml { db, include_tables: vec![], exclude_tables: vec![], exportignore: vec![] }
}

fn names(tables: &Vec<&TableSchema>) -> Vec<String> {
    tables.iter().map(|s| s.name.clone()).collect()
}

fn registry() -> SchemaRegistry {
    SchemaRegistry::new(vec![
        TableSchema::new(String::from("players"), vec![], false),
        TableSchema::new(String::from("items"), vec![], true),
        TableSchema::new(String::from("npcs"), vec![], true),
    ])
}

#[test]
fn config_build_no_args_given_get_defaults() {
    let config = Config::parse_cli(&vec!["path_to_binary"]).unwrap();

    assert_eq!("mysql", config.db_provider);
    assert_eq!(false, config.import_db);
    assert_eq!(false, config.import_schema);
    assert_eq!(Vec::<String>::new(), config.ignored_tables);
    assert_eq!(Vec::<String>::new(), config.exclude_tables);
    assert_eq!(Vec::<String>::new(), config.include_tables);
    assert_eq!(false, config.update_only);
}

#[test]
fn config_build_export_sqlite_db_provider_is_sqlite() {
    let args = vec!["path_to_binary", "--export", "sqlite"];

    let config = Config::parse_cli(&args).unwrap();

    assert_eq!(config.db_provider, "sqlite")
}

#[test]
fn config_build_exclude_abc_exclude_tables_has_vector_with_a_b_c() {
    let args = &vec!["path_to_binary", "--exclude", "a,b,c"];

    let config = Config::parse_cli(&args).unwrap();

    assert_eq!(config.exclude_tables, vec!["a", "b", "c"])
}

#[test]
fn parse_cli_without_any_argument_gives_defaults() {
    let config = Config::parse_cli(&vec![]).unwrap();
    assert_eq!(config.db_provider, "mysql");
    assert!(config.db_credentials.is_none());
    assert!(config.notices.is_empty());
}

#[test]
fn parse_cli_reads_every_option() {
    let args = vec![
        "bin",
        "--import",
        "--import-schema",
        "--update-only",
        "--include",
        "players,,npcs",
        "--exclude=items",
    ];
    let config = Config::parse_cli(&args).unwrap();
    assert!(config.import_db);
    assert!(config.import_schema);
    assert!(config.update_only);
    assert_eq!(config.include_tables, vec!["players", "npcs"]);
    assert_eq!(config.exclude_tables, vec!["items"]);
}

#[test]
fn parse_cli_takes_long_names_after_one_dash() {
    let config = Config::parse_cli(&vec!["bin", "-export", "sqlite", "-import"]).unwrap();
    assert_eq!(config.db_provider, "sqlite");
    assert!(config.import_db);
}

#[test]
fn parse_cli_help_carries_the_usage_message() {
    let r = Config::parse_cli(&vec!["bin", "--help"]);
    match r {
        Err(ConfigError::HelpRequested { usage }) => {
            assert!(usage.starts_with("Usage: bin [options]\n\nOptions:\n"));
            assert!(usage.contains("-import-schema"));
            assert!(usage.contains("Show this help"));
            assert_eq!(usage, CliParser::new().usage_text("bin"));
        }
        other => panic!("unexpected: {:?}", other),
    }
}

#[test]
fn parse_cli_unknown_option_is_refused() {
    let r = Config::parse_cli(&vec!["bin", "--nope"]);
    match r {
        Err(e) => {
            assert_eq!(e.exit_code(), 2);
            match e {
                ConfigError::InvalidArguments(err) => {
                    assert_eq!(err.fail.kind, FailKind::UnrecognizedOption);
                    assert_eq!(err.fail.option, "nope");
                    assert_eq!(err.fail.message(), "Option --nope is not defined.");
                    assert_eq!(err.usage, CliParser::new().usage_text("bin"));
                }
                other => panic!("unexpected: {:?}", other),
            }
        }
        Ok(_) => panic!("accepted"),
    }
}

#[test]
fn parse_cli_missing_argument_is_refused() {
    match Config::parse_cli(&vec!["bin", "--export"]) {
        Err(ConfigError::InvalidArguments(err)) => {
            assert_eq!(err.fail.kind, FailKind::ArgumentMissing);
            assert_eq!(err.fail.message(), "Option --export needs an argument.");
        }
        other => panic!("unexpected: {:?}", other),
    }
}

#[test]
fn parse_cli_repeated_option_is_refused() {
    match Config::parse_cli(&vec!["bin", "--import", "--import"]) {
        Err(ConfigError::InvalidArguments(err)) => {
            assert_eq!(err.fail.kind, FailKind::OptionDuplicated);
            assert_eq!(err.fail.message(), "Option --import may not be given more than once.");
        }
        other => panic!("unexpected: {:?}", other),
    }
}

#[test]
fn parse_cli_argument_to_a_flag_is_refused() {
    match Config::parse_cli(&vec!["bin", "--import=yes"]) {
        Err(ConfigError::InvalidArguments(err)) => {
            assert_eq!(err.fail.kind, FailKind::UnexpectedArgument);
            assert_eq!(err.fail.message(), "Option --import may not be given an argument.");
        }
        other => panic!("unexpected: {:?}", other),
    }
}

#[test]
fn from_options_splits_lists_and_defaults_to_mysql() {
    let c = Config::from_options(
        None,
        true,
        false,
        Some(String::from(",a,,b,")),
        None,
        true,
    );
    assert_eq!(c.db_provider, "mysql");
    assert!(c.import_db);
    assert!(!c.import_schema);
    assert_eq!(c.exclude_tables, vec!["a", "b"]);
    assert!(c.include_tables.is_empty());
    assert!(c.update_only);
}

fn dialect(export_type: &str, use_file_config: bool, cred: &DbCred) -> String {
    Config::get_db_type(&String::from(export_type), use_file_config, cred).unwrap().0
}

#[test]
fn get_db_type_follows_the_export_type() {
    let my = mysql_cred();
    let lite = sqlite_cred();
    assert_eq!(dialect("mysql", false, &my), "mysql");
    assert_eq!(dialect("sqlite", false, &my), "sqlite");
    assert_eq!(dialect("update-only", false, &lite), "mysql");
    assert_eq!(dialect("mysql", false, &lite), "mysql");
    assert_eq!(dialect("sqlite", true, &my), "sqlite");
}

#[test]
fn get_db_type_follows_the_credentials_on_import() {
    let my = mysql_cred();
    let lite = sqlite_cred();
    assert_eq!(dialect("mysql", true, &lite), "sqlite");
    assert_eq!(dialect("update-only", true, &lite), "sqlite");
    assert_eq!(dialect("mysql", true, &my), "mysql");
    assert_eq!(dialect("update-only", true, &my), "mysql");
}

#[test]
fn get_db_type_refuses_an_unknown_export_type() {
    let r = Config::get_db_type(&String::from("postgres"), false, &mysql_cred());
    match r {
        Err(e) => {
            assert_eq!(e.exit_code(), 1);
            assert_eq!(e, ConfigError::InvalidExportType { value: String::from("postgres") });
        }
        Ok(_) => panic!("accepted"),
    }
    let r = Config::get_db_type(&String::from("MySQL"), false, &sqlite_cred());
    assert!(r.is_err());
    let r = Config::get_db_type(&String::from(""), false, &sqlite_cred());
    assert!(r.is_err());
}

#[test]
fn get_db_type_refuses_an_unknown_export_type_on_an_import_too() {
    for cred in [mysql_cred(), sqlite_cred()] {
        assert_eq!(
            Config::get_db_type(&String::from("whatever"), true, &cred),
            Err(ConfigError::InvalidExportType { value: String::from("whatever") })
        );
    }
    for args in [
        vec!["bin", "--import", "--export", "oracle"],
        vec!["bin", "--import-schema", "--export", "oracle"],
    ] {
        match Config::build(&args, yml(sqlite_cred())) {
            Err(ConfigError::InvalidExportType { value }) => assert_eq!(value, "oracle"),
            other => panic!("unexpected: {:?}", other),
        }
    }
}

#[test]
fn get_db_type_gives_the_deprecation_notice_once() {
    for import in [false, true] {
        for cred in [mysql_cred(), sqlite_cred()] {
            let (_, notices) =
                Config::get_db_type(&String::from("update-only"), import, &cred).unwrap();
            assert_eq!(
                notices,
                vec!["Export type update-only is deprecated. Use \"-update-only\" instead."]
            );
            for known in ["mysql", "sqlite"] {
                let (_, notices) = Config::get_db_type(&String::from(known), import, &cred).unwrap();
                assert!(notices.is_empty());
            }
        }
    }
}

#[test]
fn build_update_only_export_type_is_mysql_with_one_notice() {
    let config = Config::build(&vec!["bin", "--export", "update-only"], yml(mysql_cred())).unwrap();
    assert_eq!(config.db_provider, "mysql");
    assert!(config.update_only);
    assert_eq!(config.notices, vec![String::from(DEPRECATION_NOTICE)]);
    assert_eq!(
        config.notices[0],
        "Export type update-only is deprecated. Use \"-update-only\" instead."
    );
}

#[test]
fn build_without_deprecated_export_type_has_no_notice() {
    let config = Config::build(&vec!["bin", "--update-only"], yml(mysql_cred())).unwrap();
    assert_eq!(config.db_provider, "mysql");
    assert!(config.update_only);
    assert!(config.notices.is_empty());
    let config = Config::build(&vec!["bin"], yml(sqlite_cred())).unwrap();
    assert!(!config.update_only);
    assert_eq!(config.db_provider, "mysql");
}

#[test]
fn build_joins_command_line_and_file() {
    let file = ConfigYml {
        db: sqlite_cred(),
        include_tables: vec![String::from("guilds")],
        exclude_tables: vec![String::from("logs")],
        exportignore: vec![String::from("sessions")],
    };
    let args = vec!["bin", "--import", "--include", "players", "--exclude", "items,npcs"];
    let config = Config::build(&args, file).unwrap();
    assert_eq!(config.db_credentials, Some(sqlite_cred()));
    assert_eq!(config.db_provider, "sqlite");
    assert!(config.import_db);
    assert!(!config.import_schema);
    assert_eq!(config.include_tables, vec!["players", "guilds"]);
    assert_eq!(config.exclude_tables, vec!["items", "npcs", "logs"]);
    assert_eq!(config.ignored_tables, vec!["sessions"]);
}

#[test]
fn build_passes_on_what_ends_the_run() {
    assert!(matches!(
        Config::build(&vec!["bin", "--help"], yml(mysql_cred())),
        Err(ConfigError::HelpRequested { .. })
    ));
    assert!(matches!(
        Config::build(&vec!["bin", "--bogus"], yml(mysql_cred())),
        Err(ConfigError::InvalidArguments(_))
    ));
    match Config::build(&vec!["bin", "--export", "oracle"], yml(mysql_cred())) {
        Err(ConfigError::InvalidExportType { value }) => assert_eq!(value, "oracle"),
        other => panic!("unexpected: {:?}", other),
    }
}

#[test]
fn help_ends_the_run_with_exit_code_zero() {
    let e = Config::parse_cli(&vec!["bin", "-help"]).unwrap_err();
    assert_eq!(e.exit_code(), 0);
    assert_eq!(ConfigError::MissingCredentials.exit_code(), 1);
}

#[test]
fn selection_policy_counts_ignored_tables_as_excluded() {
    let file = ConfigYml {
        db: mysql_cred(),
        include_tables: vec![],
        exclude_tables: vec![String::from("npcs")],
        exportignore: vec![String::from("ITEMS")],
    };
    let config = Config::build(&vec!["bin"], file).unwrap();
    let policy = config.selection_policy();
    assert_eq!(policy.exclude_tables, vec!["npcs", "ITEMS"]);
    assert!(policy.include_tables.is_empty());
    assert!(!policy.update_only);
    let reg = registry();
    assert_eq!(names(&config.get_selected_table_schemas(&reg)), vec!["players"]);
    assert_eq!(names(&config.get_excluded_schemas(&reg)), vec!["items", "npcs"]);
}

#[test]
fn import_leaves_dynamic_tables_alone() {
    let config = Config::build(&vec!["bin", "--import"], yml(mysql_cred())).unwrap();
    assert!(config.selection_policy().update_only);
    let reg = registry();
    assert_eq!(names(&config.get_selected_table_schemas(&reg)), vec!["items", "npcs"]);
    assert_eq!(names(&config.get_excluded_schemas(&reg)), vec!["players"]);
}

#[test]
fn import_takes_a_dynamic_table_that_is_included_by_name() {
    let args = vec!["bin", "--import", "--include", "Players", "--exclude", "players,npcs"];
    let config = Config::build(&args, yml(mysql_cred())).unwrap();
    let reg = registry();
    assert_eq!(names(&config.get_selected_table_schemas(&reg)), vec!["players", "items"]);
    assert_eq!(names(&config.get_excluded_schemas(&reg)), vec!["npcs"]);
}
