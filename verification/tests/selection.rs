use db_sync::schema::{ColumnDef, SchemaRegistry, SqlType, TableSchema};
use db_sync::selection::{is_chosen, pick_by_keys, SelectionPolicy};

fn table(name: &str, is_static: bool) -> TableSchema {
    TableSchema::new(String::from(name), vec![], is_static)
}

fn two_tables() -> SchemaRegistry {
    SchemaRegistry::new(vec![table("players", false), table("items", true)])
}

fn policy(include_tables: &[&str], exclude_tables: &[&str], update_only: bool) -> SelectionPolicy {
    SelectionPolicy::new(
        include_tables.iter().map(|s| String::from(*s)).collect(),
        exclude_tables.iter().map(|s| String::from(*s)).collect(),
        update_only,
    )
}

fn names(tables: &Vec<&TableSchema>) -> Vec<String> {
    tables.iter().map(|s| s.name.clone()).collect()
}

#[test]
fn excluded_dynamic_table_under_update_only_leaves_the_static_one() {
    let reg = two_tables();
    let p = policy(&[], &["players"], true);
    assert_eq!(names(&reg.resolve_selection(&p)), vec!["items"]);
    assert_eq!(names(&reg.excluded_schemas(&p)), vec!["players"]);
}

#[test]
fn wildcard_exclusion_leaves_the_named_table() {
    let reg = two_tables();
    let p = policy(&["players"], &["all"], false);
    assert_eq!(names(&reg.resolve_selection(&p)), vec!["players"]);
    assert_eq!(names(&reg.excluded_schemas(&p)), vec!["items"]);
}

#[test]
fn wildcard_inclusion_selects_everything() {
    let reg = two_tables();
    let p = policy(&["all"], &["all", "players", "items"], true);
    assert_eq!(names(&reg.resolve_selection(&p)), vec!["players", "items"]);
    assert!(reg.excluded_schemas(&p).is_empty());
}

#[test]
fn wildcard_is_found_in_any_case() {
    let reg = two_tables();
    let p = policy(&["ALL"], &["players"], true);
    assert_eq!(names(&reg.resolve_selection(&p)), vec!["players", "items"]);
    let p = policy(&[], &["All"], false);
    assert!(reg.resolve_selection(&p).is_empty());
    assert_eq!(names(&reg.excluded_schemas(&p)), vec!["players", "items"]);
}

#[test]
fn names_are_compared_without_case() {
    let reg = SchemaRegistry::new(vec![table("Players", false), table("ITEMS", true)]);
    let p = policy(&[], &["items"], false);
    assert_eq!(names(&reg.resolve_selection(&p)), vec!["Players"]);
    let p = policy(&["pLAYERS"], &["PLAYERS", "items"], true);
    assert_eq!(names(&reg.resolve_selection(&p)), vec!["Players"]);
    assert_eq!(names(&reg.excluded_schemas(&p)), vec!["ITEMS"]);
}

#[test]
fn empty_policy_selects_everything() {
    let reg = two_tables();
    let p = policy(&[], &[], false);
    assert_eq!(names(&reg.resolve_selection(&p)), vec!["players", "items"]);
    assert!(reg.excluded_schemas(&p).is_empty());
}

#[test]
fn update_only_drops_dynamic_tables() {
    let reg = two_tables();
    let p = policy(&[], &[], true);
    assert_eq!(names(&reg.resolve_selection(&p)), vec!["items"]);
    assert_eq!(names(&reg.excluded_schemas(&p)), vec!["players"]);
}

#[test]
fn named_table_survives_exclusion_and_protection() {
    let reg = two_tables();
    let p = policy(&["players"], &["players"], true);
    assert_eq!(names(&reg.resolve_selection(&p)), vec!["players", "items"]);
    let p = policy(&["players", "items"], &["all"], true);
    assert_eq!(names(&reg.resolve_selection(&p)), vec!["players", "items"]);
}

#[test]
fn selection_and_rejection_split_the_catalog() {
    let reg = SchemaRegistry::new(vec![
        table("a", true),
        table("b", false),
        table("c", true),
        table("a", false),
        table("d", false),
    ]);
    let policies = vec![
        policy(&[], &[], false),
        policy(&[], &["a"], true),
        policy(&["b"], &["all"], false),
        policy(&["d"], &["c"], true),
        policy(&["all"], &["all"], true),
    ];
    for p in policies.iter() {
        let chosen = reg.resolve_selection(p);
        let left = reg.excluded_schemas(p);
        assert_eq!(chosen.len() + left.len(), 5);
        let mut c = 0;
        let mut l = 0;
        for s in reg.get_all_schemas().iter() {
            if c < chosen.len() && std::ptr::eq(chosen[c], s) {
                c += 1;
            } else {
                assert!(l < left.len() && std::ptr::eq(left[l], s));
                l += 1;
            }
        }
        assert_eq!((c, l), (chosen.len(), left.len()));
    }
}

#[test]
fn selection_keeps_registration_order() {
    let reg = SchemaRegistry::new(vec![table("z", true), table("m", true), table("a", true)]);
    let p = policy(&[], &["m"], false);
    assert_eq!(names(&reg.resolve_selection(&p)), vec!["z", "a"]);
}

#[test]
fn registry_is_replaced_as_a_whole() {
    let mut reg = two_tables();
    assert_eq!(reg.get_all_schemas().len(), 2);
    let fresh = vec![table("npcs", true)];
    reg.replace_schemas(fresh.clone());
    assert_eq!(reg.get_all_schemas(), &fresh);
    reg.replace_schemas(vec![]);
    assert!(reg.get_all_schemas().is_empty());
}

#[test]
fn schema_holds_its_parts() {
    let col = ColumnDef {
        name: String::from("id"),
        sql_type: SqlType::Integer,
        nullable: false,
        is_primary_key: true,
    };
    let s = TableSchema::new(String::from("items"), vec![col.clone()], true);
    assert_eq!(s.name, "items");
    assert_eq!(s.columns, vec![col]);
    assert!(s.is_static());
    assert!(!table("players", false).is_static());
}

fn strings(items: &[&str]) -> Vec<String> {
    items.iter().map(|s| String::from(*s)).collect()
}

#[test]
fn is_chosen_follows_the_order_of_the_rules() {
    let none = strings(&[]);
    assert!(is_chosen(&strings(&["all"]), &strings(&["all", "t"]), true, "t", false));
    assert!(!is_chosen(&none, &strings(&["all"]), false, "t", true));
    assert!(is_chosen(&strings(&["t"]), &strings(&["all"]), true, "t", false));
    assert!(!is_chosen(&strings(&["u"]), &strings(&["all"]), false, "t", true));
    assert!(is_chosen(&none, &none, false, "t", false));
    assert!(is_chosen(&none, &none, true, "t", true));
    assert!(!is_chosen(&none, &none, true, "t", false));
    assert!(!is_chosen(&none, &strings(&["t"]), false, "t", true));
    assert!(is_chosen(&strings(&["t"]), &strings(&["t"]), true, "t", false));
    assert!(is_chosen(&none, &strings(&["u"]), false, "t", true));
}

#[test]
fn is_chosen_takes_names_as_they_are() {
    let none = strings(&[]);
    assert!(is_chosen(&none, &strings(&["ALL"]), false, "t", true));
    assert!(is_chosen(&none, &strings(&["T"]), false, "t", true));
    assert!(!is_chosen(&strings(&["T"]), &strings(&["all"]), false, "t", true));
}

#[test]
fn pick_by_keys_goes_by_the_given_names() {
    let all = vec![table("Players", false), table("Items", true), table("Npcs", true)];
    let keys = strings(&["players", "items", "npcs"]);
    let chosen = pick_by_keys(&all, &keys, &strings(&[]), &strings(&["players"]), true, true);
    assert_eq!(names(&chosen), vec!["Items", "Npcs"]);
    let left = pick_by_keys(&all, &keys, &strings(&[]), &strings(&["players"]), true, false);
    assert_eq!(names(&left), vec!["Players"]);
    let chosen = pick_by_keys(&all, &keys, &strings(&["players"]), &strings(&["all"]), false, true);
    assert_eq!(names(&chosen), vec!["Players"]);
}

#[test]
fn pick_by_keys_leaves_out_a_table_without_a_name() {
    let all = vec![table("a", true), table("b", true)];
    let keys = strings(&["a"]);
    assert_eq!(names(&pick_by_keys(&all, &keys, &strings(&[]), &strings(&[]), false, true)), vec!["a"]);
    assert!(pick_by_keys(&all, &keys, &strings(&[]), &strings(&[]), false, false).is_empty());
    let keys = strings(&["a", "b", "c"]);
    assert_eq!(
        names(&pick_by_keys(&all, &keys, &strings(&[]), &strings(&["b"]), false, true)),
        vec!["a"]
    );
}
