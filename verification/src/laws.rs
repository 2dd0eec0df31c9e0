//! The statements' guarantees, written out and proved once over the
//! executors' mathematical models.

use vstd::prelude::*;
use crate::model::{TableView, row_of, pairs_to_map, lemma_map_value};
use crate::stmt::{
    parse_create, apply_create, CreateParse, CreateView, parse_insert, apply_insert, InsertParse,
    InsertView, parse_select, select_result, SelectParse, SelectView, project, parse_drop,
    apply_drop, DropParse, DropView,
};
use crate::command::{star, null_value};

verus! {

/// A well-formed `CREATE` always leaves the named table with the
/// declared columns in declared order and not a single row — also when
/// it overwrites an earlier table of the same name, whose rows are
/// then gone.
pub proof fn law_create_fresh(
    db: Map<Seq<u8>, TableView>,
    raw: Seq<u8>,
    name: Seq<u8>,
    columns: Seq<Seq<u8>>,
)
    requires
        parse_create(raw) == (CreateParse::Parsed { name, columns }),
    ensures
        apply_create(db, raw).0.contains_key(name),
        apply_create(db, raw).0[name].columns == columns,
        apply_create(db, raw).0[name].rows.len() == 0,
        apply_create(db, raw).1 == CreateView::Created(name),
{
}

/// An `INSERT` whose value count differs from the declared column
/// count changes nothing: the table keeps its row count, and the whole
/// store keeps its value.
pub proof fn law_insert_arity_guard(
    db: Map<Seq<u8>, TableView>,
    raw: Seq<u8>,
    table: Seq<u8>,
    values: Seq<Seq<u8>>,
)
    requires
        parse_insert(raw) == (InsertParse::Parsed { table, values }),
        db.contains_key(table),
        values.len() != db[table].columns.len(),
    ensures
        apply_insert(db, raw).0 == db,
        apply_insert(db, raw).0[table].rows.len() == db[table].rows.len(),
        apply_insert(db, raw).1 == InsertView::Arity,
{
}

/// A successful `INSERT` appends exactly one row, and when the
/// declared columns are pairwise distinct, that row's value for the
/// column at each position is the value parsed at the same position.
/// (With a repeated column name the later position wins instead.)
pub proof fn law_insert_positional(
    db: Map<Seq<u8>, TableView>,
    raw: Seq<u8>,
    table: Seq<u8>,
    values: Seq<Seq<u8>>,
    i: int,
)
    requires
        parse_insert(raw) == (InsertParse::Parsed { table, values }),
        db.contains_key(table),
        values.len() == db[table].columns.len(),
        forall|a: int, b: int|
            0 <= a < b < db[table].columns.len() ==> db[table].columns[a] != db[table].columns[b],
        0 <= i < values.len(),
    ensures
        apply_insert(db, raw).0[table].rows.len() == db[table].rows.len() + 1,
        apply_insert(db, raw).0[table].rows.last().contains_key(db[table].columns[i]),
        apply_insert(db, raw).0[table].rows.last()[db[table].columns[i]] == values[i],
        apply_insert(db, raw).1 == InsertView::Inserted(table),
{
    let cols = db[table].columns;
    let zipped = Seq::new(cols.len(), |k: int| (cols[k], values[k]));
    assert(forall|j: int| i < j < zipped.len() ==> (#[trigger] zipped[j]).0 != zipped[i].0);
    lemma_map_value(zipped, i);
    assert(row_of(cols, values) == pairs_to_map(zipped));
}

/// `SELECT *` projects every declared column in declared order, one
/// value list per stored row; a row without a value for some column
/// shows the `NULL` sentinel at that position.
pub proof fn law_select_star(db: Map<Seq<u8>, TableView>, raw: Seq<u8>, table: Seq<u8>)
    requires
        parse_select(raw) == (SelectParse::Parsed { columns: seq![star()], table }),
        db.contains_key(table),
    ensures
        select_result(db, raw) == (SelectView::Selected {
            name: db[table].name,
            columns: db[table].columns,
            rows: project(db[table].rows, db[table].columns),
        }),
        forall|i: int, j: int|
            0 <= i < db[table].rows.len() && 0 <= j < db[table].columns.len()
                ==> #[trigger] project(db[table].rows, db[table].columns)[i][j] == (if db[
                table
            ].rows[i].contains_key(db[table].columns[j]) {
                db[table].rows[i][db[table].columns[j]]
            } else {
                null_value()
            }),
{
    let columns = seq![star()];
    assert(columns.len() == 1 && columns[0] == star());
}

/// After a successful `DROP` the table is gone from the store, and a
/// `SELECT` naming it reports that it was not found, whatever columns
/// it asks for.
pub proof fn law_drop_then_select(
    db: Map<Seq<u8>, TableView>,
    drop_raw: Seq<u8>,
    name: Seq<u8>,
    sel_raw: Seq<u8>,
    sel_cols: Seq<Seq<u8>>,
)
    requires
        parse_drop(drop_raw) == (DropParse::Parsed { name }),
        db.contains_key(name),
        parse_select(sel_raw) == (SelectParse::Parsed { columns: sel_cols, table: name }),
    ensures
        apply_drop(db, drop_raw).1 == DropView::Dropped(name),
        !apply_drop(db, drop_raw).0.contains_key(name),
        select_result(apply_drop(db, drop_raw).0, sel_raw) == SelectView::NoSuchTable(name),
{
}

/// After a successful `DROP` of `name`, an `INSERT` into that table
/// reports it missing and changes nothing, and a second `DROP` of the
/// same name reports it missing too.
pub proof fn law_drop_then_mutate(
    db: Map<Seq<u8>, TableView>,
    drop_raw: Seq<u8>,
    name: Seq<u8>,
    ins_raw: Seq<u8>,
    ins_values: Seq<Seq<u8>>,
)
    requires
        parse_drop(drop_raw) == (DropParse::Parsed { name }),
        db.contains_key(name),
        parse_insert(ins_raw) == (InsertParse::Parsed { table: name, values: ins_values }),
    ensures
        apply_insert(apply_drop(db, drop_raw).0, ins_raw) == (
            apply_drop(db, drop_raw).0,
            InsertView::NoSuchTable(name),
        ),
        apply_drop(apply_drop(db, drop_raw).0, drop_raw).1 == DropView::NoSuchTable(name),
{
}

} // verus!
