//! The configuration of one run: what the command line and the
//! configuration file say together, and which tables that selects.

use crate::cli_parser::{
    arg_texts, cli_outcome, path_in, program_path, usage_for, CliError, CliParser,
};
use crate::document::SqlProvider;
use crate::schema::{same_table, same_tables, SchemaRegistry, TableSchema};
use crate::task::{AnyTask, ExportToSql, ImportDb, ImportSchema};
use crate::selection::{rejection, selection, targets, PolicyView, SelectionPolicy};
use crate::text::{same_text, split_pieces, split_string, texts};
use crate::yml_parser::{ConfigYml, DbCred};
use vstd::prelude::*;
use vstd::string::*;

verus! {

/// What is said when the old export type `update-only` is used.
pub const DEPRECATION_NOTICE: &'static str =
    "Export type update-only is deprecated. Use \"-update-only\" instead.";

/// Why a run ends before any table is touched.
#[derive(Debug, PartialEq, Eq)]
pub enum ConfigError {
    /// The help was asked for: the usage message is all there is to do.
    HelpRequested { usage: String },
    /// The arguments were not accepted.
    InvalidArguments(CliError),
    /// The export type is none of the known ones.
    InvalidExportType { value: String },
    /// The task needs credentials and the configuration holds none.
    MissingCredentials,
}

impl ConfigError {
    /// The exit code of a process that ends on this: 0 after the help, 2
    /// after arguments that were not accepted, 1 otherwise.
    pub fn exit_code(&self) -> (r: u8)
        ensures
            r == match *self {
                ConfigError::HelpRequested { .. } => 0u8,
                ConfigError::InvalidArguments(_) => 2u8,
                _ => 1u8,
            },
    {
        match self {
            ConfigError::HelpRequested { .. } => 0,
            ConfigError::InvalidArguments(_) => 2,
            _ => 1,
        }
    }
}

/// The configuration of one run.
#[derive(Debug)]
pub struct Config {
    pub db_credentials: Option<DbCred>,
    pub db_provider: String,
    pub import_db: bool,
    pub import_schema: bool,
    pub exclude_tables: Vec<String>,
    pub include_tables: Vec<String>,
    pub ignored_tables: Vec<String>,
    pub update_only: bool,
    pub notices: Vec<String>,
}

/// Whether the option `name` occurs in the parsed arguments.
pub open spec fn is_given(vals: Map<Seq<char>, Seq<Option<Seq<char>>>>, name: Seq<char>) -> bool {
    vals[name].len() > 0
}

/// The value of the option `name` in the parsed arguments, if it has one.
pub open spec fn value_of(vals: Map<Seq<char>, Seq<Option<Seq<char>>>>, name: Seq<char>) -> Option<
    Seq<char>,
> {
    if vals[name].len() > 0 {
        vals[name][0]
    } else {
        None
    }
}

/// The names in a comma-separated list; no list, no names.
pub open spec fn listed(list: Option<Seq<char>>) -> Seq<Seq<char>> {
    match list {
        Some(t) => split_pieces(t, ","@),
        None => Seq::<Seq<char>>::empty(),
    }
}

/// The export type that the command line asks for: `mysql` unless it says
/// otherwise.
pub open spec fn export_type_of(export: Option<Seq<char>>) -> Seq<char> {
    match export {
        Some(t) => t,
        None => "mysql"@,
    }
}

/// Whether the export type is one of the known ones: `mysql`, `sqlite`, or
/// the old `update-only`.
pub open spec fn known_export_type(export_type: Seq<char>) -> bool {
    export_type == "mysql"@ || export_type == "sqlite"@ || export_type == "update-only"@
}

/// The dialect of a run, or `None` for an export type that is not known,
/// whatever the run does. For a known export type: SQLite where the run
/// reads the configured database and that is a SQLite one, or where the
/// export type is `sqlite`; else MySQL.
pub open spec fn db_type_of(export_type: Seq<char>, use_file_config: bool, sqlite_cred: bool)
    -> Option<Seq<char>> {
    if !known_export_type(export_type) {
        None
    } else if (sqlite_cred && use_file_config) || export_type == "sqlite"@ {
        Some("sqlite"@)
    } else {
        Some("mysql"@)
    }
}

/// What is to be said of the export type: the deprecation notice for the
/// old `update-only`, else nothing.
pub open spec fn notices_for(export_type: Seq<char>) -> Seq<Seq<char>> {
    if export_type == "update-only"@ {
        seq![DEPRECATION_NOTICE@]
    } else {
        Seq::<Seq<char>>::empty()
    }
}

impl Config {
    /// The configuration that the options of a command line give by
    /// themselves: no credentials, nothing ignored, nothing to say.
    pub open spec fn holds_options(
        &self,
        export: Option<Seq<char>>,
        import: bool,
        import_schema: bool,
        exclude_list: Option<Seq<char>>,
        include_list: Option<Seq<char>>,
        update_only: bool,
    ) -> bool {
        &&& self.db_credentials is None
        &&& self.db_provider@ == export_type_of(export)
        &&& self.import_db == import
        &&& self.import_schema == import_schema
        &&& texts(self.exclude_tables@) == listed(exclude_list)
        &&& texts(self.include_tables@) == listed(include_list)
        &&& self.ignored_tables@.len() == 0
        &&& self.update_only == update_only
        &&& self.notices@.len() == 0
    }

    /// The configuration that parsed arguments give by themselves.
    pub open spec fn holds_matches(&self, vals: Map<Seq<char>, Seq<Option<Seq<char>>>>) -> bool {
        self.holds_options(
            value_of(vals, "export"@),
            is_given(vals, "import"@),
            is_given(vals, "import-schema"@),
            value_of(vals, "exclude"@),
            value_of(vals, "include"@),
            is_given(vals, "update-only"@),
        )
    }

    /// The configuration for the values of the options of a command line.
    pub fn from_options(
        export: Option<String>,
        import: bool,
        import_schema: bool,
        exclude_list: Option<String>,
        include_list: Option<String>,
        update_only: bool,
    ) -> (r: Config)
        ensures
            r.holds_options(
                text_of(export),
                import,
                import_schema,
                text_of(exclude_list),
                text_of(include_list),
                update_only,
            ),
    {
        let db_provider: String = match export {
            Some(t) => t,
            None => "mysql".to_owned(),
        };
        let exclude_tables: Vec<String> = match exclude_list {
            Some(t) => split_string(t, ","),
            None => Vec::new(),
        };
        let include_tables: Vec<String> = match include_list {
            Some(t) => split_string(t, ","),
            None => Vec::new(),
        };
        assert(texts(Seq::<String>::empty()) =~= Seq::<Seq<char>>::empty());
        Config {
            db_credentials: None,
            db_provider,
            import_db: import,
            import_schema,
            exclude_tables,
            include_tables,
            ignored_tables: Vec::new(),
            update_only,
            notices: Vec::new(),
        }
    }

    /// Reads the command line `args`, the program's path first. Arguments
    /// that the parser does not accept end the run, and so does the option
    /// `help`; both carry the usage message. Otherwise the configuration
    /// holds what the options say.
    pub fn parse_cli(args: &Vec<&str>) -> (r: Result<Config, ConfigError>)
        ensures
            match cli_outcome(arg_texts(args@)) {
                Err(fail) => r matches Err(ConfigError::InvalidArguments(e)) && e.fail@ == fail
                    && e.usage@ == usage_for(program_path(args@)),
                Ok(vals) => if is_given(vals, "help"@) {
                    r matches Err(ConfigError::HelpRequested { usage }) && usage@ == usage_for(
                        program_path(args@),
                    )
                } else {
                    r matches Ok(c) && c.holds_matches(vals)
                },
            },
    {
        let cli_parser: CliParser = CliParser::new();
        let matches: getopts::Matches = match cli_parser.get_matches(args) {
            Ok(m) => m,
            Err(e) => {
                return Err(ConfigError::InvalidArguments(e));
            },
        };
        if matches.opt_present("help") {
            let usage: String = cli_parser.usage_text(path_in(args));
            return Err(ConfigError::HelpRequested { usage });
        }
        let export: Option<String> = matches.opt_str("export");
        let import: bool = matches.opt_present("import");
        let import_schema: bool = matches.opt_present("import-schema");
        let exclude_list: Option<String> = matches.opt_str("exclude");
        let include_list: Option<String> = matches.opt_str("include");
        let update_only: bool = matches.opt_present("update-only");
        Ok(Config::from_options(export, import, import_schema, exclude_list, include_list, update_only))
    }

    /// The dialect of a run with the export type `export_type`, and what
    /// is to be said of that export type: the deprecation notice, once, for
    /// the old `update-only`. `use_file_config` says that the run reads the
    /// configured database. An export type that is not known is an error
    /// that carries it, whatever the run does.
    pub fn get_db_type(export_type: &String, use_file_config: bool, db_cred: &DbCred) -> (r: Result<
        (String, Vec<String>),
        ConfigError,
    >)
        ensures
            match db_type_of(export_type@, use_file_config, *db_cred is Sqlite) {
                Some(t) => r matches Ok(found) && found.0@ == t && texts(found.1@) == notices_for(
                    export_type@,
                ),
                None => r matches Err(ConfigError::InvalidExportType { value }) && value@
                    == export_type@,
            },
    {
        let is_sqlite: bool = same_text(export_type.as_str(), "sqlite");
        let is_mysql: bool = same_text(export_type.as_str(), "mysql");
        let deprecated: bool = same_text(export_type.as_str(), "update-only");
        if !(is_sqlite || is_mysql || deprecated) {
            return Err(ConfigError::InvalidExportType { value: export_type.clone() });
        }
        let mut notices: Vec<String> = Vec::new();
        if deprecated {
            notices.push(DEPRECATION_NOTICE.to_owned());
        }
        assert(texts(notices@) =~= notices_for(export_type@));
        let import_sqlite: bool = match db_cred {
            DbCred::Sqlite(_) => use_file_config,
            _ => false,
        };
        if import_sqlite || is_sqlite {
            Ok(("sqlite".to_owned(), notices))
        } else {
            Ok(("mysql".to_owned(), notices))
        }
    }

    /// What the command line and the configuration file say together: the
    /// file gives the credentials and the ignored tables, and its included
    /// and excluded names follow those of the command line. The old export
    /// type `update-only` stands for MySQL with `update_only` set, and
    /// leaves one notice.
    pub open spec fn holds_run(
        &self,
        vals: Map<Seq<char>, Seq<Option<Seq<char>>>>,
        yml: ConfigYml,
        db_type: Seq<char>,
    ) -> bool {
        let export_type = export_type_of(value_of(vals, "export"@));
        &&& self.db_credentials == Some(yml.db)
        &&& self.db_provider@ == db_type
        &&& self.import_db == is_given(vals, "import"@)
        &&& self.import_schema == is_given(vals, "import-schema"@)
        &&& texts(self.exclude_tables@) == listed(value_of(vals, "exclude"@)) + texts(
            yml.exclude_tables@,
        )
        &&& texts(self.include_tables@) == listed(value_of(vals, "include"@)) + texts(
            yml.include_tables@,
        )
        &&& self.ignored_tables == yml.exportignore
        &&& self.update_only == (is_given(vals, "update-only"@) || export_type == "update-only"@)
        &&& texts(self.notices@) == notices_for(export_type)
    }

    /// The configuration of a run, from the command line `args`, the
    /// program's path first, and the configuration file `yml`. The run ends
    /// early on arguments that the parser does not accept, on the option
    /// `help`, and on an export type that is not known.
    pub fn build(args: &Vec<&str>, yml: ConfigYml) -> (r: Result<Config, ConfigError>)
        ensures
            match cli_outcome(arg_texts(args@)) {
                Err(fail) => r matches Err(ConfigError::InvalidArguments(e)) && e.fail@ == fail
                    && e.usage@ == usage_for(program_path(args@)),
                Ok(vals) => if is_given(vals, "help"@) {
                    r matches Err(ConfigError::HelpRequested { usage }) && usage@ == usage_for(
                        program_path(args@),
                    )
                } else {
                    let export_type = export_type_of(value_of(vals, "export"@));
                    let use_file_config = is_given(vals, "import"@) || is_given(
                        vals,
                        "import-schema"@,
                    );
                    match db_type_of(export_type, use_file_config, yml.db is Sqlite) {
                        Some(t) => r matches Ok(c) && c.holds_run(vals, yml, t),
                        None => r matches Err(ConfigError::InvalidExportType { value }) && value@
                            == export_type,
                    }
                },
            },
    {
        let cli_config: Config = match Config::parse_cli(args) {
            Ok(c) => c,
            Err(e) => {
                return Err(e);
            },
        };
        let ghost vals = cli_outcome(arg_texts(args@))->Ok_0;
        let ConfigYml { db, include_tables: yml_included, exclude_tables: yml_excluded, exportignore } =
            yml;
        let mut yml_included: Vec<String> = yml_included;
        let mut yml_excluded: Vec<String> = yml_excluded;
        let Config {
            db_credentials: _,
            db_provider: export_type,
            import_db: import_flag,
            import_schema: import_schema_flag,
            exclude_tables,
            include_tables,
            ignored_tables: _,
            update_only,
            notices: _,
        } = cli_config;
        let mut exclude_tables: Vec<String> = exclude_tables;
        let mut include_tables: Vec<String> = include_tables;
        let ghost cli_excluded = exclude_tables@;
        let ghost cli_included = include_tables@;
        exclude_tables.append(&mut yml_excluded);
        include_tables.append(&mut yml_included);
        assert(texts(exclude_tables@) =~= texts(cli_excluded) + texts(yml.exclude_tables@));
        assert(texts(include_tables@) =~= texts(cli_included) + texts(yml.include_tables@));
        let (db_provider, notices) = match Config::get_db_type(
            &export_type,
            import_flag || import_schema_flag,
            &db,
        ) {
            Ok(found) => found,
            Err(e) => {
                return Err(e);
            },
        };
        let deprecated: bool = same_text(export_type.as_str(), "update-only");
        Ok(
            Config {
                db_credentials: Some(db),
                db_provider,
                import_db: import_flag,
                import_schema: import_schema_flag,
                exclude_tables,
                include_tables,
                ignored_tables: exportignore,
                update_only: update_only || deprecated,
                notices,
            },
        )
    }

    /// The selection policy of the run: the ignored tables count as
    /// excluded, and an import leaves dynamic tables alone as `update_only`
    /// does.
    pub open spec fn policy_view(&self) -> PolicyView {
        PolicyView {
            include_tables: texts(self.include_tables@),
            exclude_tables: texts(self.exclude_tables@) + texts(self.ignored_tables@),
            update_only: self.import_db || self.update_only,
        }
    }

    /// The selection policy of the run.
    pub fn selection_policy(&self) -> (r: SelectionPolicy)
        ensures
            r@ == self.policy_view(),
    {
        let include_tables: Vec<String> = copy_names(&self.include_tables);
        let mut exclude_tables: Vec<String> = copy_names(&self.exclude_tables);
        let mut ignored: Vec<String> = copy_names(&self.ignored_tables);
        exclude_tables.append(&mut ignored);
        assert(texts(exclude_tables@) =~= texts(self.exclude_tables@) + texts(
            self.ignored_tables@,
        ));
        SelectionPolicy::new(include_tables, exclude_tables, self.import_db || self.update_only)
    }

    /// The tables of the registry that the run touches, in registration
    /// order.
    pub fn get_selected_table_schemas<'a>(&self, registry: &'a SchemaRegistry) -> (r: Vec<
        &'a TableSchema,
    >)
        ensures
            targets(r@) == selection(registry@, self.policy_view()),
    {
        let policy: SelectionPolicy = self.selection_policy();
        registry.resolve_selection(&policy)
    }

    /// The tables of the registry that the run leaves out, in registration
    /// order.
    pub fn get_excluded_schemas<'a>(&self, registry: &'a SchemaRegistry) -> (r: Vec<
        &'a TableSchema,
    >)
        ensures
            targets(r@) == rejection(registry@, self.policy_view()),
    {
        let policy: SelectionPolicy = self.selection_policy();
        registry.excluded_schemas(&policy)
    }

    /// The task of the run. An import of schemas comes before an import of
    /// rows, and both need the credentials; without either the run exports
    /// the selected tables in the dialect of `db_provider`, each with the
    /// statement that creates it before its rows.
    pub fn get_task(&self, registry: &SchemaRegistry) -> (r: Result<AnyTask, ConfigError>)
        ensures
            if self.import_schema {
                match self.db_credentials {
                    Some(c) => r matches Ok(AnyTask::ImportSchema(t)) && t.db_credentials == c,
                    None => r matches Err(ConfigError::MissingCredentials),
                }
            } else if self.import_db {
                match self.db_credentials {
                    Some(c) => r matches Ok(AnyTask::ImportDb(t)) && t.db_credentials == c
                        && same_tables(
                        t.tables_to_import@,
                        selection(registry@, self.policy_view()),
                    ),
                    None => r matches Err(ConfigError::MissingCredentials),
                }
            } else if self.db_provider@ == "sqlite"@ || self.db_provider@ == "mysql"@ {
                r matches Ok(AnyTask::ExportToSql(t)) && t.sql_provider == (if self.db_provider@
                    == "sqlite"@ {
                    SqlProvider::Sqlite
                } else {
                    SqlProvider::MySql
                }) && t.with_schema && same_tables(
                    t.tables_to_export@,
                    selection(registry@, self.policy_view()),
                )
            } else {
                r matches Err(ConfigError::InvalidExportType { value }) && value@
                    == self.db_provider@
            },
    {
        if self.import_schema {
            return match &self.db_credentials {
                Some(c) => Ok(AnyTask::ImportSchema(ImportSchema { db_credentials: c.clone() })),
                None => Err(ConfigError::MissingCredentials),
            };
        }
        if self.import_db {
            return match &self.db_credentials {
                Some(c) => {
                    let tables_to_import: Vec<TableSchema> = copy_tables(
                        &self.get_selected_table_schemas(registry),
                    );
                    Ok(AnyTask::ImportDb(ImportDb { db_credentials: c.clone(), tables_to_import }))
                },
                None => Err(ConfigError::MissingCredentials),
            };
        }
        let sql_provider: SqlProvider = if same_text(self.db_provider.as_str(), "sqlite") {
            SqlProvider::Sqlite
        } else if same_text(self.db_provider.as_str(), "mysql") {
            SqlProvider::MySql
        } else {
            return Err(ConfigError::InvalidExportType { value: self.db_provider.clone() });
        };
        let tables_to_export: Vec<TableSchema> = copy_tables(
            &self.get_selected_table_schemas(registry),
        );
        Ok(
            AnyTask::ExportToSql(
                ExportToSql { sql_provider, tables_to_export, with_schema: true },
            ),
        )
    }
}

/// Copies of the tables that `tables` points to.
pub fn copy_tables(tables: &Vec<&TableSchema>) -> (r: Vec<TableSchema>)
    ensures
        same_tables(r@, targets(tables@)),
{
    let mut out: Vec<TableSchema> = Vec::new();
    let mut i: usize = 0;
    while i < tables.len()
        invariant
            i <= tables@.len(),
            out@.len() == i,
            forall|j: int| 0 <= j < i ==> same_table(#[trigger] out@[j], *tables@[j]),
        decreases tables.len() - i,
    {
        out.push(tables[i].clone());
        i += 1;
    }
    out
}

/// A copy of `names`.
pub fn copy_names(names: &Vec<String>) -> (r: Vec<String>)
    ensures
        r@ == names@,
{
    let mut out: Vec<String> = Vec::new();
    let mut i: usize = 0;
    while i < names.len()
        invariant
            i <= names.len(),
            out@ == names@.take(i as int),
        decreases names.len() - i,
    {
        out.push(names[i].clone());
        i += 1;
        assert(out@ =~= names@.take(i as int));
    }
    assert(names@.take(names.len() as int) =~= names@);
    out
}

/// The text that a value holds, if there is one.
pub open spec fn text_of(v: Option<String>) -> Option<Seq<char>> {
    match v {
        Some(t) => Some(t@),
        None => None,
    }
}

} // verus!
