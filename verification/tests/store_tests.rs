use rsql::command::{command_parser, classify_line, Command};
use rsql::model::{Row, Store, Table, rebuild_store};
use rsql::stmt::{
    exec_command, handle_create, handle_insert, select_table, drop_table, CreateOutcome,
    InsertOutcome, SelectOutcome, DropOutcome, Response,
};

fn b(s: &str) -> Vec<u8> {
    s.as_bytes().to_vec()
}

fn bs(items: &[&str]) -> Vec<Vec<u8>> {
    items.iter().map(|s| b(s)).collect()
}

fn store_with_users() -> Store {
    let mut store = Store::new();
    let r = handle_create(b"CREATE TABLE users (id, name)", &mut store);
    assert_eq!(r, CreateOutcome::Created(b("users")));
    store
}

#[test]
fn classify_help_and_exit_whole_word() {
    assert_eq!(command_parser("help"), Command::Help);
    assert_eq!(command_parser("  HELP  "), Command::Help);
    assert_eq!(command_parser("exit"), Command::Exit);
    assert_eq!(command_parser("ExIt"), Command::Exit);
}

#[test]
fn classify_statements_keep_original_case() {
    assert_eq!(
        command_parser("  CREATE TABLE t (a)  "),
        Command::Create(b("CREATE TABLE t (a)"))
    );
    assert_eq!(
        command_parser("insert into t values (1)"),
        Command::Insert(b("insert into t values (1)"))
    );
    assert_eq!(command_parser("SELECT * FROM t"), Command::Select(b("SELECT * FROM t")));
    assert_eq!(command_parser("Drop TABLE t"), Command::Drop(b("Drop TABLE t")));
}

#[test]
fn classify_unrecognized_falls_back_to_help() {
    assert_eq!(command_parser(""), Command::Help);
    assert_eq!(command_parser("   "), Command::Help);
    assert_eq!(command_parser("frobnicate the data"), Command::Help);
    assert_eq!(command_parser("helpme"), Command::Help);
    assert_eq!(command_parser("exit now"), Command::Help);
}

#[test]
fn classify_line_matches_str_parser() {
    assert_eq!(classify_line(b"  drop table t"), Command::Drop(b("drop table t")));
}

#[test]
fn create_makes_empty_table_with_declared_columns() {
    let store = store_with_users();
    let t = store.get_table(b"users").expect("users should exist");
    assert_eq!(t.name, b("users"));
    assert_eq!(t.columns, bs(&["id", "name"]));
    assert_eq!(t.rows.len(), 0);
}

#[test]
fn create_is_case_insensitive_on_keywords() {
    let mut store = Store::new();
    let r = handle_create(b"cReAtE tAbLe t (a, b)", &mut store);
    assert_eq!(r, CreateOutcome::Created(b("t")));
    let t = store.get_table(b"t").expect("t should exist");
    assert_eq!(t.columns, bs(&["a", "b"]));
}

#[test]
fn create_overwrites_and_discards_old_rows() {
    let mut store = store_with_users();
    let r = handle_insert(b"INSERT INTO users VALUES (1, Alice)", &mut store);
    assert_eq!(r, InsertOutcome::Inserted(b("users")));
    let r = handle_create(b"CREATE TABLE users (mail)", &mut store);
    assert_eq!(r, CreateOutcome::Created(b("users")));
    let t = store.get_table(b"users").expect("users should exist");
    assert_eq!(t.columns, bs(&["mail"]));
    assert_eq!(t.rows.len(), 0);
}

#[test]
fn create_syntax_error_without_table_keyword() {
    let mut store = Store::new();
    assert_eq!(handle_create(b"CREATE users (id)", &mut store), CreateOutcome::SyntaxError);
    assert_eq!(handle_create(b"CREATE", &mut store), CreateOutcome::SyntaxError);
    assert!(store.get_table(b"users").is_none());
}

#[test]
fn create_paren_error_without_parentheses() {
    let mut store = Store::new();
    assert_eq!(handle_create(b"CREATE TABLE users id, name", &mut store), CreateOutcome::ParenError);
    assert_eq!(handle_create(b"CREATE TABLE u )a(", &mut store), CreateOutcome::ParenError);
    assert!(store.get_table(b"users").is_none());
}

#[test]
fn create_preserves_empty_column_names() {
    let mut store = Store::new();
    assert_eq!(handle_create(b"CREATE TABLE t ()", &mut store), CreateOutcome::Created(b("t")));
    let t = store.get_table(b"t").expect("t should exist");
    assert_eq!(t.columns, bs(&[""]));
    assert_eq!(handle_create(b"CREATE TABLE t2 (a,,b)", &mut store), CreateOutcome::Created(b("t2")));
    let t2 = store.get_table(b"t2").expect("t2 should exist");
    assert_eq!(t2.columns, bs(&["a", "", "b"]));
}

#[test]
fn insert_appends_row_pairing_values_positionally() {
    let mut store = store_with_users();
    let r = handle_insert(b"INSERT INTO users VALUES (1, Alice)", &mut store);
    assert_eq!(r, InsertOutcome::Inserted(b("users")));
    let t = store.get_table(b"users").expect("users should exist");
    assert_eq!(t.rows.len(), 1);
    let row = &t.rows[0];
    assert_eq!(row.get(b"id"), Some(&b("1")));
    assert_eq!(row.get(b"name"), Some(&b("Alice")));
    assert_eq!(row.get(b"mail"), None);
}

#[test]
fn insert_arity_mismatch_leaves_row_count_unchanged() {
    let mut store = store_with_users();
    handle_insert(b"INSERT INTO users VALUES (1, Alice)", &mut store);
    let r = handle_insert(b"INSERT INTO users VALUES (1)", &mut store);
    assert_eq!(r, InsertOutcome::ArityMismatch);
    let r = handle_insert(b"INSERT INTO users VALUES (1, a, b)", &mut store);
    assert_eq!(r, InsertOutcome::ArityMismatch);
    let t = store.get_table(b"users").expect("users should exist");
    assert_eq!(t.rows.len(), 1);
}

#[test]
fn insert_into_missing_table_reports_it() {
    let mut store = Store::new();
    let r = handle_insert(b"INSERT INTO ghosts VALUES (1)", &mut store);
    assert_eq!(r, InsertOutcome::NoSuchTable(b("ghosts")));
}

#[test]
fn insert_syntax_and_paren_errors() {
    let mut store = store_with_users();
    assert_eq!(handle_insert(b"INSERT users VALUES (1, A)", &mut store), InsertOutcome::SyntaxError);
    assert_eq!(handle_insert(b"INSERT INTO users (1, A)", &mut store), InsertOutcome::SyntaxError);
    assert_eq!(handle_insert(b"INSERT INTO users VALUES 1, A", &mut store), InsertOutcome::ParenError);
    let t = store.get_table(b"users").expect("users should exist");
    assert_eq!(t.rows.len(), 0);
}

#[test]
fn insert_duplicate_column_last_value_wins() {
    let mut store = Store::new();
    handle_create(b"CREATE TABLE t (a, a)", &mut store);
    let r = handle_insert(b"INSERT INTO t VALUES (1, 2)", &mut store);
    assert_eq!(r, InsertOutcome::Inserted(b("t")));
    let t = store.get_table(b"t").expect("t should exist");
    assert_eq!(t.rows[0].get(b"a"), Some(&b("2")));
}

#[test]
fn select_star_projects_declared_order() {
    let mut store = store_with_users();
    handle_insert(b"INSERT INTO users VALUES (1, Alice)", &mut store);
    handle_insert(b"INSERT INTO users VALUES (2, Bob)", &mut store);
    let r = select_table(b"SELECT * FROM users", &store);
    assert_eq!(
        r,
        SelectOutcome::Selected {
            name: b("users"),
            columns: bs(&["id", "name"]),
            rows: vec![bs(&["1", "Alice"]), bs(&["2", "Bob"])],
        }
    );
}

#[test]
fn select_named_columns_in_requested_order() {
    let mut store = store_with_users();
    handle_insert(b"INSERT INTO users VALUES (1, Alice)", &mut store);
    let r = select_table(b"SELECT name, id FROM users", &store);
    assert_eq!(
        r,
        SelectOutcome::Selected {
            name: b("users"),
            columns: bs(&["name", "id"]),
            rows: vec![bs(&["Alice", "1"])],
        }
    );
}

#[test]
fn select_missing_column_aborts_whole_projection() {
    let mut store = store_with_users();
    handle_insert(b"INSERT INTO users VALUES (1, Alice)", &mut store);
    let r = select_table(b"SELECT id, mail FROM users", &store);
    assert_eq!(r, SelectOutcome::NoSuchColumn { column: b("mail"), name: b("users") });
}

#[test]
fn select_missing_table_reports_it() {
    let store = Store::new();
    let r = select_table(b"SELECT * FROM users", &store);
    assert_eq!(r, SelectOutcome::NoSuchTable(b("users")));
}

#[test]
fn select_requires_uppercase_from() {
    let mut store = store_with_users();
    handle_insert(b"INSERT INTO users VALUES (1, Alice)", &mut store);
    let r = select_table(b"SELECT * from users", &store);
    assert_eq!(r, SelectOutcome::FromError);
}

#[test]
fn select_without_leading_keyword_is_syntax_error() {
    let store = store_with_users();
    assert_eq!(select_table(b"SELECT* FROM users", &store), SelectOutcome::SyntaxError);
    assert_eq!(select_table(b"pick * FROM users", &store), SelectOutcome::SyntaxError);
}

#[test]
fn select_substitutes_null_for_missing_cell() {
    let table = Table {
        name: b("t"),
        columns: bs(&["a", "b"]),
        rows: vec![Row { cells: vec![(b("a"), b("1"))] }],
    };
    let store = rebuild_store(vec![table]);
    let r = select_table(b"SELECT * FROM t", &store);
    assert_eq!(
        r,
        SelectOutcome::Selected {
            name: b("t"),
            columns: bs(&["a", "b"]),
            rows: vec![bs(&["1", "NULL"])],
        }
    );
}

#[test]
fn drop_removes_table_and_later_queries_miss_it() {
    let mut store = store_with_users();
    handle_insert(b"INSERT INTO users VALUES (1, Alice)", &mut store);
    let r = drop_table(b"DROP TABLE users", &mut store);
    assert_eq!(r, DropOutcome::Dropped(b("users")));
    assert!(store.get_table(b"users").is_none());
    assert_eq!(select_table(b"SELECT * FROM users", &store), SelectOutcome::NoSuchTable(b("users")));
    let r = drop_table(b"DROP TABLE users", &mut store);
    assert_eq!(r, DropOutcome::NoSuchTable(b("users")));
}

#[test]
fn drop_syntax_error_without_table_keyword() {
    let mut store = store_with_users();
    assert_eq!(drop_table(b"DROP users now", &mut store), DropOutcome::SyntaxError);
    assert_eq!(drop_table(b"DROP users", &mut store), DropOutcome::SyntaxError);
    assert!(store.get_table(b"users").is_some());
}

#[test]
fn exec_command_dispatches_each_statement() {
    let mut store = Store::new();
    let r = exec_command(command_parser("CREATE TABLE t (a)"), &mut store);
    assert_eq!(r, Response::CreateRes(CreateOutcome::Created(b("t"))));
    let r = exec_command(command_parser("INSERT INTO t VALUES (7)"), &mut store);
    assert_eq!(r, Response::InsertRes(InsertOutcome::Inserted(b("t"))));
    let r = exec_command(command_parser("SELECT * FROM t"), &mut store);
    assert_eq!(
        r,
        Response::SelectRes(SelectOutcome::Selected {
            name: b("t"),
            columns: bs(&["a"]),
            rows: vec![bs(&["7"])],
        })
    );
    let r = exec_command(command_parser("DROP TABLE t"), &mut store);
    assert_eq!(r, Response::DropRes(DropOutcome::Dropped(b("t"))));
    assert_eq!(exec_command(command_parser("help"), &mut store), Response::Help);
    assert_eq!(exec_command(command_parser("exit"), &mut store), Response::Exit);
    assert_eq!(exec_command(command_parser("nonsense"), &mut store), Response::Help);
}

#[test]
fn values_and_columns_keep_inner_spaces_and_trim_outer() {
    let mut store = Store::new();
    handle_create(b"CREATE TABLE t ( first col ,  second )", &mut store);
    let t = store.get_table(b"t").expect("t should exist");
    assert_eq!(t.columns, bs(&["first col", "second"]));
    handle_insert(b"INSERT INTO t VALUES ( hello world ,  x )", &mut store);
    let t = store.get_table(b"t").expect("t should exist");
    assert_eq!(t.rows[0].get(b"first col"), Some(&b("hello world")));
    assert_eq!(t.rows[0].get(b"second"), Some(&b("x")));
}

#[test]
fn rebuild_from_listed_tables_restores_equal_store() {
    let mut store = store_with_users();
    handle_create(b"CREATE TABLE pets (species)", &mut store);
    handle_insert(b"INSERT INTO users VALUES (1, Alice)", &mut store);
    handle_insert(b"INSERT INTO pets VALUES (cat)", &mut store);
    let listed = store.tables().clone();
    let rebuilt = rebuild_store(listed);
    assert_eq!(rebuilt, store);
}

#[test]
fn select_star_tolerates_extra_spaces() {
    let mut store = store_with_users();
    handle_insert(b"INSERT INTO users VALUES (1, Alice)", &mut store);
    let r = select_table(b"SELECT   *   FROM users", &store);
    assert_eq!(
        r,
        SelectOutcome::Selected {
            name: b("users"),
            columns: bs(&["id", "name"]),
            rows: vec![bs(&["1", "Alice"])],
        }
    );
}

#[test]
fn create_table_name_keeps_inner_spaces() {
    let mut store = Store::new();
    let r = handle_create(b"CREATE TABLE my table (a)", &mut store);
    assert_eq!(r, CreateOutcome::Created(b("my table")));
    assert!(store.get_table(b"my table").is_some());
}

#[test]
fn drop_name_is_everything_after_the_keyword() {
    let mut store = Store::new();
    handle_create(b"CREATE TABLE a b (x)", &mut store);
    let r = drop_table(b"DROP TABLE a b", &mut store);
    assert_eq!(r, DropOutcome::Dropped(b("a b")));
}

#[test]
fn create_prefix_classifies_but_fails_syntax() {
    let mut store = Store::new();
    let r = exec_command(command_parser("createx"), &mut store);
    assert_eq!(r, Response::CreateRes(CreateOutcome::SyntaxError));
}

#[test]
fn classify_trims_tabs_and_newlines() {
    assert_eq!(
        command_parser("\tcreate table t (a)\r\n"),
        Command::Create(b("create table t (a)"))
    );
    assert_eq!(command_parser("\n help \t"), Command::Help);
}

#[test]
fn insert_reversed_parens_is_paren_error() {
    let mut store = store_with_users();
    let r = handle_insert(b"INSERT INTO users VALUES )1, A(", &mut store);
    assert_eq!(r, InsertOutcome::ParenError);
    let t = store.get_table(b"users").expect("users should exist");
    assert_eq!(t.rows.len(), 0);
}

#[test]
fn rebuild_with_repeated_name_keeps_later_table() {
    let t1 = Table { name: b("t"), columns: bs(&["a"]), rows: vec![] };
    let t2 = Table { name: b("t"), columns: bs(&["b", "c"]), rows: vec![] };
    let store = rebuild_store(vec![t1, t2]);
    let t = store.get_table(b"t").expect("t should exist");
    assert_eq!(t.columns, bs(&["b", "c"]));
}
