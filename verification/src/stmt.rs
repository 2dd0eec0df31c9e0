//! The statement executors. Each one parses the raw statement text it
//! was handed and performs one operation against the store; a failed
//! parse or a failed lookup leaves the store untouched and reports
//! which check failed.

use vstd::prelude::*;
use crate::command::{
    Command,
    kw_table, kw_table_vec, kw_into, kw_into_vec, kw_values, kw_values_vec, kw_select_sp,
    kw_select_sp_vec, star, null_value, null_value_vec,
};
use crate::model::{Store, Table, TableView, Row, row_of};
use crate::text::{
    trim, lower, index_of, lemma_index_of, split_commas, trim_bytes, lower_bytes, bytes_eq,
    find_byte, copy_range, trim_bytes_range, split_commas_bytes, has_prefix, bytes_starts_with,
    index_of_from, lemma_index_of_from, find_from,
};

verus! {

/// How one raw `CREATE` line parses.
pub ghost enum CreateParse {
    /// Fewer than three whitespace tokens, or the second is not `TABLE`.
    Syntax,
    /// No opening or closing parenthesis, or they stand reversed.
    Paren,
    /// A table name and its declared columns, in declared order.
    Parsed { name: Seq<u8>, columns: Seq<Seq<u8>> },
}

/// Parses `CREATE TABLE <name> (<col>, <col>, ...)`: split the trimmed
/// line into at most three space-delimited tokens, ask the second to be
/// `TABLE` whatever its case, and read the name and the comma-split
/// column list out of the third.
pub open spec fn parse_create(raw: Seq<u8>) -> CreateParse {
    let t = trim(raw);
    match index_of(t, 32) {
        Option::None => CreateParse::Syntax,
        Option::Some(i1) => {
            let rest1 = t.subrange(i1 + 1, t.len() as int);
            match index_of(rest1, 32) {
                Option::None => CreateParse::Syntax,
                Option::Some(i2) => {
                    let tok1 = rest1.subrange(0, i2);
                    let rest2 = rest1.subrange(i2 + 1, rest1.len() as int);
                    if lower(tok1) != kw_table() {
                        CreateParse::Syntax
                    } else {
                        match (index_of(rest2, 40), index_of(rest2, 41)) {
                            (Option::Some(o), Option::Some(c)) => if o < c {
                                CreateParse::Parsed {
                                    name: trim(rest2.subrange(0, o)),
                                    columns: split_commas(rest2.subrange(o + 1, c)),
                                }
                            } else {
                                CreateParse::Paren
                            },
                            _ => CreateParse::Paren,
                        }
                    }
                },
            }
        },
    }
}

/// What a `CREATE` reports.
#[derive(Debug, PartialEq, Eq)]
pub enum CreateOutcome {
    /// The table was created (or overwritten); carries its name.
    Created(Vec<u8>),
    SyntaxError,
    ParenError,
}

/// The mathematical shape of a `CREATE` report.
pub ghost enum CreateView {
    Created(Seq<u8>),
    Syntax,
    Paren,
}

impl View for CreateOutcome {
    type V = CreateView;

    open spec fn view(&self) -> CreateView {
        match self {
            CreateOutcome::Created(name) => CreateView::Created(name@),
            CreateOutcome::SyntaxError => CreateView::Syntax,
            CreateOutcome::ParenError => CreateView::Paren,
        }
    }
}

/// The store after one `CREATE` line, and its report. A well-formed
/// `CREATE` binds the name to a fresh table with the declared columns
/// and no rows, replacing any table the name held before; any other
/// line leaves the store as it was.
pub open spec fn apply_create(db: Map<Seq<u8>, TableView>, raw: Seq<u8>) -> (Map<
    Seq<u8>,
    TableView,
>, CreateView) {
    match parse_create(raw) {
        CreateParse::Syntax => (db, CreateView::Syntax),
        CreateParse::Paren => (db, CreateView::Paren),
        CreateParse::Parsed { name, columns } => (
            db.insert(name, TableView { name, columns, rows: Seq::empty() }),
            CreateView::Created(name),
        ),
    }
}

/// Executes one `CREATE` line against the store.
pub fn handle_create(cmd: &[u8], store: &mut Store) -> (r: CreateOutcome)
    requires
        old(store).wf(),
    ensures
        final(store).wf(),
        final(store)@ == apply_create(old(store)@, cmd@).0,
        r@ == apply_create(old(store)@, cmd@).1,
{
    let t = trim_bytes(cmd);
    match find_byte(t.as_slice(), 32) {
        None => CreateOutcome::SyntaxError,
        Some(i1) => {
            proof {
                lemma_index_of(t@, 32);
                assert(i1 < t@.len());
            }
            let rest1 = copy_range(t.as_slice(), i1 + 1, t.len());
            match find_byte(rest1.as_slice(), 32) {
                None => CreateOutcome::SyntaxError,
                Some(i2) => {
                    proof {
                        lemma_index_of(rest1@, 32);
                    }
                    let tok1 = copy_range(rest1.as_slice(), 0, i2);
                    let rest2 = copy_range(rest1.as_slice(), i2 + 1, rest1.len());
                    let ltok = lower_bytes(tok1.as_slice());
                    if !bytes_eq(ltok.as_slice(), kw_table_vec().as_slice()) {
                        CreateOutcome::SyntaxError
                    } else {
                        let o = find_byte(rest2.as_slice(), 40);
                        let c = find_byte(rest2.as_slice(), 41);
                        match (o, c) {
                            (Some(oi), Some(ci)) => {
                                proof {
                                    lemma_index_of(rest2@, 40);
                                    lemma_index_of(rest2@, 41);
                                }
                                if oi < ci {
                                    let name = trim_bytes_range(rest2.as_slice(), 0, oi);
                                    let interior = copy_range(rest2.as_slice(), oi + 1, ci);
                                    let columns = split_commas_bytes(interior.as_slice(), 0);
                                    let name_out = crate::model::copy_bytes(&name);
                                    let table = Table { name, columns, rows: Vec::new() };
                                    let ghost tv = TableView {
                                        name: trim(rest2@.subrange(0, oi as int)),
                                        columns: split_commas(
                                            rest2@.subrange(oi + 1, ci as int),
                                        ),
                                        rows: Seq::empty(),
                                    };
                                    proof {
                                        assert(interior@.subrange(0, interior@.len() as int)
                                            =~= rest2@.subrange(oi + 1, ci as int));
                                        assert(table.rows@.map_values(|r: crate::model::Row| r@)
                                            =~= Seq::<Map<Seq<u8>, Seq<u8>>>::empty());
                                        assert(table@ == tv);
                                    }
                                    let _had = store.put_table(table);
                                    CreateOutcome::Created(name_out)
                                } else {
                                    CreateOutcome::ParenError
                                }
                            },
                            _ => CreateOutcome::ParenError,
                        }
                    }
                },
            }
        },
    }
}

/// How one raw `INSERT` line parses.
pub ghost enum InsertParse {
    /// Fewer than four whitespace tokens, the second is not `INTO`, or
    /// the fourth does not begin with `VALUES`.
    Syntax,
    /// No opening or closing parenthesis in the fourth token, or they
    /// stand reversed.
    Paren,
    /// A table name and the parsed values, in written order.
    Parsed { table: Seq<u8>, values: Seq<Seq<u8>> },
}

/// Parses `INSERT INTO <table> VALUES (<v>, <v>, ...)`: split the
/// trimmed line into at most four space-delimited tokens, ask the
/// second to be `INTO` and the fourth to begin with `VALUES` whatever
/// their case, and read the comma-split values between the first
/// parentheses of the fourth token.
pub open spec fn parse_insert(raw: Seq<u8>) -> InsertParse {
    let t = trim(raw);
    match index_of(t, 32) {
        Option::None => InsertParse::Syntax,
        Option::Some(i1) => {
            let rest1 = t.subrange(i1 + 1, t.len() as int);
            match index_of(rest1, 32) {
                Option::None => InsertParse::Syntax,
                Option::Some(i2) => {
                    let tok1 = rest1.subrange(0, i2);
                    let rest2 = rest1.subrange(i2 + 1, rest1.len() as int);
                    match index_of(rest2, 32) {
                        Option::None => InsertParse::Syntax,
                        Option::Some(i3) => {
                            let table = rest2.subrange(0, i3);
                            let vals_part = rest2.subrange(i3 + 1, rest2.len() as int);
                            if lower(tok1) != kw_into() {
                                InsertParse::Syntax
                            } else if !has_prefix(lower(vals_part), kw_values()) {
                                InsertParse::Syntax
                            } else {
                                match (index_of(vals_part, 40), index_of(vals_part, 41)) {
                                    (Option::Some(o), Option::Some(c)) => if o < c {
                                        InsertParse::Parsed {
                                            table,
                                            values: split_commas(vals_part.subrange(o + 1, c)),
                                        }
                                    } else {
                                        InsertParse::Paren
                                    },
                                    _ => InsertParse::Paren,
                                }
                            }
                        },
                    }
                },
            }
        },
    }
}

/// What an `INSERT` reports.
#[derive(Debug, PartialEq, Eq)]
pub enum InsertOutcome {
    /// One row was appended; carries the table name.
    Inserted(Vec<u8>),
    SyntaxError,
    ParenError,
    /// No table of that name; carries the name looked up.
    NoSuchTable(Vec<u8>),
    /// Value count differs from the declared column count.
    ArityMismatch,
}

/// The mathematical shape of an `INSERT` report.
pub ghost enum InsertView {
    Inserted(Seq<u8>),
    Syntax,
    Paren,
    NoSuchTable(Seq<u8>),
    Arity,
}

impl View for InsertOutcome {
    type V = InsertView;

    open spec fn view(&self) -> InsertView {
        match self {
            InsertOutcome::Inserted(name) => InsertView::Inserted(name@),
            InsertOutcome::SyntaxError => InsertView::Syntax,
            InsertOutcome::ParenError => InsertView::Paren,
            InsertOutcome::NoSuchTable(name) => InsertView::NoSuchTable(name@),
            InsertOutcome::ArityMismatch => InsertView::Arity,
        }
    }
}

/// The store after one `INSERT` line, and its report. A well-formed
/// `INSERT` into a known table with as many values as declared columns
/// appends exactly one row pairing columns with values positionally;
/// every other line leaves the store as it was.
pub open spec fn apply_insert(db: Map<Seq<u8>, TableView>, raw: Seq<u8>) -> (Map<
    Seq<u8>,
    TableView,
>, InsertView) {
    match parse_insert(raw) {
        InsertParse::Syntax => (db, InsertView::Syntax),
        InsertParse::Paren => (db, InsertView::Paren),
        InsertParse::Parsed { table, values } => if !db.contains_key(table) {
            (db, InsertView::NoSuchTable(table))
        } else if values.len() != db[table].columns.len() {
            (db, InsertView::Arity)
        } else {
            let tv = db[table];
            (
                db.insert(
                    table,
                    TableView {
                        name: tv.name,
                        columns: tv.columns,
                        rows: tv.rows.push(row_of(tv.columns, values)),
                    },
                ),
                InsertView::Inserted(table),
            )
        },
    }
}

/// Executes one `INSERT` line against the store.
pub fn handle_insert(cmd: &[u8], store: &mut Store) -> (r: InsertOutcome)
    requires
        old(store).wf(),
    ensures
        final(store).wf(),
        final(store)@ == apply_insert(old(store)@, cmd@).0,
        r@ == apply_insert(old(store)@, cmd@).1,
{
    let t = trim_bytes(cmd);
    match find_byte(t.as_slice(), 32) {
        None => InsertOutcome::SyntaxError,
        Some(i1) => {
            proof {
                lemma_index_of(t@, 32);
                assert(i1 < t@.len());
            }
            let rest1 = copy_range(t.as_slice(), i1 + 1, t.len());
            match find_byte(rest1.as_slice(), 32) {
                None => InsertOutcome::SyntaxError,
                Some(i2) => {
                    proof {
                        lemma_index_of(rest1@, 32);
                    }
                    let tok1 = copy_range(rest1.as_slice(), 0, i2);
                    let rest2 = copy_range(rest1.as_slice(), i2 + 1, rest1.len());
                    match find_byte(rest2.as_slice(), 32) {
                        None => InsertOutcome::SyntaxError,
                        Some(i3) => {
                            proof {
                                lemma_index_of(rest2@, 32);
                            }
                            let tname = copy_range(rest2.as_slice(), 0, i3);
                            let vals_part = copy_range(rest2.as_slice(), i3 + 1, rest2.len());
                            let ltok = lower_bytes(tok1.as_slice());
                            let lvals = lower_bytes(vals_part.as_slice());
                            if !bytes_eq(ltok.as_slice(), kw_into_vec().as_slice()) {
                                InsertOutcome::SyntaxError
                            } else if !bytes_starts_with(
                                lvals.as_slice(),
                                kw_values_vec().as_slice(),
                            ) {
                                InsertOutcome::SyntaxError
                            } else {
                                let o = find_byte(vals_part.as_slice(), 40);
                                let c = find_byte(vals_part.as_slice(), 41);
                                match (o, c) {
                                    (Some(oi), Some(ci)) => {
                                        proof {
                                            lemma_index_of(vals_part@, 40);
                                            lemma_index_of(vals_part@, 41);
                                        }
                                        if oi < ci {
                                            let interior = copy_range(
                                                vals_part.as_slice(),
                                                oi + 1,
                                                ci,
                                            );
                                            let values = split_commas_bytes(interior.as_slice(), 0);
                                            proof {
                                                assert(interior@.subrange(
                                                    0,
                                                    interior@.len() as int,
                                                ) =~= vals_part@.subrange(oi + 1, ci as int));
                                            }
                                            insert_row(tname, values, store)
                                        } else {
                                            InsertOutcome::ParenError
                                        }
                                    },
                                    _ => InsertOutcome::ParenError,
                                }
                            }
                        },
                    }
                },
            }
        },
    }
}

/// Appends the parsed row to the named table: the lookup, the arity
/// check, and the positional pairing of columns with values.
fn insert_row(tname: Vec<u8>, values: Vec<Vec<u8>>, store: &mut Store) -> (r: InsertOutcome)
    requires
        old(store).wf(),
    ensures
        final(store).wf(),
        !old(store)@.contains_key(tname@) ==> final(store)@ == old(store)@ && r@
            == InsertView::NoSuchTable(tname@),
        old(store)@.contains_key(tname@) && values.deep_view().len() != old(
            store,
        )@[tname@].columns.len() ==> final(store)@ == old(store)@ && r@ == InsertView::Arity,
        old(store)@.contains_key(tname@) && values.deep_view().len() == old(
            store,
        )@[tname@].columns.len() ==> final(store)@ == old(store)@.insert(
            tname@,
            TableView {
                name: old(store)@[tname@].name,
                columns: old(store)@[tname@].columns,
                rows: old(store)@[tname@].rows.push(
                    row_of(old(store)@[tname@].columns, values.deep_view()),
                ),
            },
        ) && r@ == InsertView::Inserted(tname@),
{
    match store.take_table(tname.as_slice()) {
        None => InsertOutcome::NoSuchTable(tname),
        Some(tbl) => {
            let mut tbl = tbl;
            if values.len() != tbl.columns.len() {
                let ghost tv = tbl@;
                let _had = store.put_table(tbl);
                proof {
                    assert(store@ =~= old(store)@);
                }
                InsertOutcome::ArityMismatch
            } else {
                let row = crate::model::build_row(&tbl.columns, &values);
                let ghost old_tbl = tbl@;
                tbl.rows.push(row);
                proof {
                    assert(tbl.rows@.map_values(|r: crate::model::Row| r@)
                        =~= old_tbl.rows.push(row@));
                }
                let _had = store.put_table(tbl);
                proof {
                    assert(store@ =~= old(store)@.insert(
                        tname@,
                        TableView {
                            name: old_tbl.name,
                            columns: old_tbl.columns,
                            rows: old_tbl.rows.push(row@),
                        },
                    ));
                }
                InsertOutcome::Inserted(tname)
            }
        },
    }
}

/// The position of the first requested column that is not declared in
/// the table, if any.
pub open spec fn first_missing(req: Seq<Seq<u8>>, declared: Seq<Seq<u8>>) -> Option<int>
    decreases req.len(),
{
    if req.len() == 0 {
        Option::None
    } else if !declared.contains(req[0]) {
        Option::Some(0int)
    } else {
        match first_missing(req.subrange(1, req.len() as int), declared) {
            Option::Some(i) => Option::Some(i + 1),
            Option::None => Option::None,
        }
    }
}

/// `first_missing` points at the first undeclared column, and reports
/// `None` only when every requested column is declared.
pub proof fn lemma_first_missing(req: Seq<Seq<u8>>, declared: Seq<Seq<u8>>)
    ensures
        first_missing(req, declared) matches Option::Some(i) ==> 0 <= i < req.len()
            && !declared.contains(req[i]) && forall|j: int|
            0 <= j < i ==> declared.contains(#[trigger] req[j]),
        first_missing(req, declared) is None ==> forall|j: int|
            0 <= j < req.len() ==> declared.contains(#[trigger] req[j]),
    decreases req.len(),
{
    if req.len() == 0 {
    } else if !declared.contains(req[0]) {
    } else {
        let t = req.subrange(1, req.len() as int);
        lemma_first_missing(t, declared);
        assert(forall|j: int| 1 <= j < req.len() ==> req[j] == t[j - 1]);
    }
}

/// Every cell of the projection: the row's value for the column, or
/// the `NULL` sentinel where the row lacks one.
pub open spec fn project(rows: Seq<Map<Seq<u8>, Seq<u8>>>, cols: Seq<Seq<u8>>) -> Seq<
    Seq<Seq<u8>>,
> {
    Seq::new(
        rows.len(),
        |i: int|
            Seq::new(
                cols.len(),
                |j: int|
                    if rows[i].contains_key(cols[j]) {
                        rows[i][cols[j]]
                    } else {
                        null_value()
                    },
            ),
    )
}

/// Resolves one row against the projected columns.
fn project_row(row: &Row, cols: &Vec<Vec<u8>>) -> (r: Vec<Vec<u8>>)
    ensures
        r.deep_view() == Seq::new(
            cols.deep_view().len(),
            |j: int|
                if row@.contains_key(cols.deep_view()[j]) {
                    row@[cols.deep_view()[j]]
                } else {
                    null_value()
                },
        ),
{
    let n = cols.len();
    let mut out: Vec<Vec<u8>> = Vec::new();
    let mut j: usize = 0;
    while j < n
        invariant
            0 <= j <= n == cols@.len(),
            out@.len() == j,
            forall|k: int| 0 <= k < j ==> (#[trigger] out@[k])@ == (if row@.contains_key(
                cols@[k]@,
            ) {
                row@[cols@[k]@]
            } else {
                null_value()
            }),
        decreases n - j,
    {
        let cell = match row.get(cols[j].as_slice()) {
            Some(v) => crate::model::copy_bytes(v),
            None => null_value_vec(),
        };
        out.push(cell);
        j = j + 1;
    }
    proof {
        let rhs = Seq::new(
            cols.deep_view().len(),
            |j: int|
                if row@.contains_key(cols.deep_view()[j]) {
                    row@[cols.deep_view()[j]]
                } else {
                    null_value()
                },
        );
        assert forall|k: int| 0 <= k < n implies out.deep_view()[k] == rhs[k] by {
            assert(cols.deep_view()[k] =~= cols@[k]@);
            assert(out.deep_view()[k] =~= out@[k]@);
        }
        assert(out.deep_view() =~= rhs);
    }
    out
}

/// Resolves every row against the projected columns.
fn project_rows(rows: &Vec<Row>, cols: &Vec<Vec<u8>>) -> (r: Vec<Vec<Vec<u8>>>)
    ensures
        r.deep_view() == project(rows@.map_values(|x: Row| x@), cols.deep_view()),
{
    let n = rows.len();
    let mut out: Vec<Vec<Vec<u8>>> = Vec::new();
    let mut i: usize = 0;
    while i < n
        invariant
            0 <= i <= n == rows@.len(),
            out@.len() == i,
            forall|k: int| 0 <= k < i ==> (#[trigger] out@[k]).deep_view() == Seq::new(
                cols.deep_view().len(),
                |j: int|
                    if rows@[k]@.contains_key(cols.deep_view()[j]) {
                        rows@[k]@[cols.deep_view()[j]]
                    } else {
                        null_value()
                    },
            ),
        decreases n - i,
    {
        let line = project_row(&rows[i], cols);
        out.push(line);
        i = i + 1;
    }
    proof {
        let rhs = project(rows@.map_values(|x: Row| x@), cols.deep_view());
        assert forall|k: int| 0 <= k < n implies out.deep_view()[k] == rhs[k] by {
            assert(out.deep_view()[k] =~= out@[k].deep_view());
        }
        assert(out.deep_view() =~= rhs);
    }
    out
}

/// Copies a list of byte strings.
fn copy_col_list(cols: &Vec<Vec<u8>>) -> (r: Vec<Vec<u8>>)
    ensures
        r.deep_view() == cols.deep_view(),
{
    let n = cols.len();
    let mut out: Vec<Vec<u8>> = Vec::new();
    let mut i: usize = 0;
    while i < n
        invariant
            0 <= i <= n == cols@.len(),
            out@.len() == i,
            forall|k: int| 0 <= k < i ==> (#[trigger] out@[k])@ == cols@[k]@,
        decreases n - i,
    {
        out.push(crate::model::copy_bytes(&cols[i]));
        i = i + 1;
    }
    proof {
        assert forall|k: int| 0 <= k < n implies out.deep_view()[k] == cols.deep_view()[k] by {
            assert(out.deep_view()[k] =~= out@[k]@);
            assert(cols.deep_view()[k] =~= cols@[k]@);
        }
        assert(out.deep_view() =~= cols.deep_view());
    }
    out
}

/// Whether some entry of `hay` holds exactly the bytes of `needle`.
fn contains_bytes(hay: &Vec<Vec<u8>>, needle: &[u8]) -> (r: bool)
    ensures
        r == hay.deep_view().contains(needle@),
{
    let n = hay.len();
    let mut i: usize = 0;
    while i < n
        invariant
            0 <= i <= n == hay@.len(),
            forall|j: int| 0 <= j < i ==> (#[trigger] hay@[j])@ != needle@,
        decreases n - i,
    {
        if bytes_eq(hay[i].as_slice(), needle) {
            proof {
                assert(hay.deep_view()[i as int] =~= hay@[i as int]@);
            }
            return true;
        }
        i = i + 1;
    }
    proof {
        assert forall|j: int| 0 <= j < n implies hay.deep_view()[j] != needle@ by {
            assert(hay.deep_view()[j] =~= hay@[j]@);
        }
    }
    false
}

/// Finds the first requested column that the table does not declare.
fn first_missing_col(req: &Vec<Vec<u8>>, declared: &Vec<Vec<u8>>) -> (r: Option<usize>)
    ensures
        r matches Option::Some(i) ==> i < req@.len() && first_missing(
            req.deep_view(),
            declared.deep_view(),
        ) == Option::Some(i as int),
        r is None ==> first_missing(req.deep_view(), declared.deep_view()) is None,
{
    let n = req.len();
    let mut i: usize = 0;
    while i < n
        invariant
            0 <= i <= n == req@.len(),
            forall|j: int| 0 <= j < i ==> declared.deep_view().contains(
                #[trigger] req.deep_view()[j],
            ),
        decreases n - i,
    {
        if !contains_bytes(declared, req[i].as_slice()) {
            proof {
                lemma_first_missing(req.deep_view(), declared.deep_view());
                assert(req.deep_view()[i as int] =~= req@[i as int]@);
                match first_missing(req.deep_view(), declared.deep_view()) {
                    Option::Some(k) => {
                        if k < i as int {
                            assert(declared.deep_view().contains(req.deep_view()[k]));
                            assert(false);
                        }
                        if k > i as int {
                            assert(false);
                        }
                    },
                    Option::None => {
                        assert(declared.deep_view().contains(req.deep_view()[i as int]));
                        assert(false);
                    },
                }
            }
            return Some(i);
        }
        proof {
            assert(req.deep_view()[i as int] =~= req@[i as int]@);
        }
        i = i + 1;
    }
    proof {
        lemma_first_missing(req.deep_view(), declared.deep_view());
        match first_missing(req.deep_view(), declared.deep_view()) {
            Option::Some(k) => {
                assert(declared.deep_view().contains(req.deep_view()[k]));
                assert(false);
            },
            Option::None => {},
        }
    }
    None
}

/// How one raw `SELECT` line parses.
pub ghost enum SelectParse {
    /// The lower-cased line does not begin with `select `.
    Syntax,
    /// No literal upper-case `FROM` after the column list.
    From,
    /// The requested columns and the table name.
    Parsed { columns: Seq<Seq<u8>>, table: Seq<u8> },
}

/// Parses `SELECT <col, ...|*> FROM <table>`: the lower-cased trimmed
/// line must begin with `select `; the rest of the original-case line
/// splits at the first literal upper-case `FROM` into the comma-split
/// column list and the table name.
pub open spec fn parse_select(raw: Seq<u8>) -> SelectParse {
    let t = trim(raw);
    if !has_prefix(lower(t), kw_select_sp()) {
        SelectParse::Syntax
    } else {
        let rest = t.subrange(7, t.len() as int);
        match index_of_from(rest) {
            Option::None => SelectParse::From,
            Option::Some(f) => SelectParse::Parsed {
                columns: split_commas(rest.subrange(0, f)),
                table: trim(rest.subrange(f + 4, rest.len() as int)),
            },
        }
    }
}

/// What a `SELECT` reports.
#[derive(Debug, PartialEq, Eq)]
pub enum SelectOutcome {
    /// The projected result: the table's stored name, the resolved
    /// column list, and one value list per row.
    Selected { name: Vec<u8>, columns: Vec<Vec<u8>>, rows: Vec<Vec<Vec<u8>>> },
    SyntaxError,
    FromError,
    /// No table of that name; carries the name looked up.
    NoSuchTable(Vec<u8>),
    /// A requested column the table does not declare, and the table's
    /// stored name.
    NoSuchColumn { column: Vec<u8>, name: Vec<u8> },
}

/// The mathematical shape of a `SELECT` report.
pub ghost enum SelectView {
    Selected { name: Seq<u8>, columns: Seq<Seq<u8>>, rows: Seq<Seq<Seq<u8>>> },
    Syntax,
    From,
    NoSuchTable(Seq<u8>),
    NoSuchColumn { column: Seq<u8>, name: Seq<u8> },
}

impl View for SelectOutcome {
    type V = SelectView;

    open spec fn view(&self) -> SelectView {
        match self {
            SelectOutcome::Selected { name, columns, rows } => SelectView::Selected {
                name: name@,
                columns: columns.deep_view(),
                rows: rows.deep_view(),
            },
            SelectOutcome::SyntaxError => SelectView::Syntax,
            SelectOutcome::FromError => SelectView::From,
            SelectOutcome::NoSuchTable(name) => SelectView::NoSuchTable(name@),
            SelectOutcome::NoSuchColumn { column, name } => SelectView::NoSuchColumn {
                column: column@,
                name: name@,
            },
        }
    }
}

/// What one `SELECT` line reports against the store. A single `*`
/// projects every declared column in declared order; otherwise every
/// requested column must be declared, and the first one that is not is
/// reported instead of any rows. Each projected cell holds the row's
/// value for that column, or `NULL` where the row lacks one.
pub open spec fn select_result(db: Map<Seq<u8>, TableView>, raw: Seq<u8>) -> SelectView {
    match parse_select(raw) {
        SelectParse::Syntax => SelectView::Syntax,
        SelectParse::From => SelectView::From,
        SelectParse::Parsed { columns, table } => if !db.contains_key(table) {
            SelectView::NoSuchTable(table)
        } else {
            let tv = db[table];
            if columns.len() == 1 && columns[0] == star() {
                SelectView::Selected {
                    name: tv.name,
                    columns: tv.columns,
                    rows: project(tv.rows, tv.columns),
                }
            } else {
                match first_missing(columns, tv.columns) {
                    Option::Some(i) => SelectView::NoSuchColumn {
                        column: columns[i],
                        name: tv.name,
                    },
                    Option::None => SelectView::Selected {
                        name: tv.name,
                        columns,
                        rows: project(tv.rows, columns),
                    },
                }
            }
        },
    }
}

/// Executes one `SELECT` line against the store; the store is only
/// read.
pub fn select_table(cmd: &[u8], store: &Store) -> (r: SelectOutcome)
    requires
        store.wf(),
    ensures
        r@ == select_result(store@, cmd@),
{
    let t = trim_bytes(cmd);
    let lt = lower_bytes(t.as_slice());
    if !bytes_starts_with(lt.as_slice(), kw_select_sp_vec().as_slice()) {
        return SelectOutcome::SyntaxError;
    }
    let rest = copy_range(t.as_slice(), 7, t.len());
    match find_from(rest.as_slice()) {
        None => SelectOutcome::FromError,
        Some(f) => {
            proof {
                lemma_index_of_from(rest@);
            }
            let cols_part = copy_range(rest.as_slice(), 0, f);
            let columns = split_commas_bytes(cols_part.as_slice(), 0);
            proof {
                assert(cols_part@.subrange(0, cols_part@.len() as int) =~= rest@.subrange(
                    0,
                    f as int,
                ));
            }
            let tname = trim_bytes_range(rest.as_slice(), f + 4, rest.len());
            match store.get_table(tname.as_slice()) {
                None => SelectOutcome::NoSuchTable(tname),
                Some(tbl) => {
                    let mut star_v: Vec<u8> = Vec::new();
                    star_v.push(42);
                    proof {
                        assert(star_v@ =~= star());
                    }
                    let is_star = columns.len() == 1 && bytes_eq(
                        columns[0].as_slice(),
                        star_v.as_slice(),
                    );
                    proof {
                        if columns@.len() == 1 {
                            assert(columns.deep_view()[0] =~= columns@[0]@);
                        }
                    }
                    if is_star {
                        let out_cols = copy_col_list(&tbl.columns);
                        let rows = project_rows(&tbl.rows, &tbl.columns);
                        let name_out = crate::model::copy_bytes(&tbl.name);
                        SelectOutcome::Selected { name: name_out, columns: out_cols, rows }
                    } else {
                        match first_missing_col(&columns, &tbl.columns) {
                            Some(i) => {
                                proof {
                                    lemma_first_missing(
                                        columns.deep_view(),
                                        tbl.columns.deep_view(),
                                    );
                                    assert(columns.deep_view()[i as int] =~= columns@[i as int]@);
                                }
                                let column = crate::model::copy_bytes(&columns[i]);
                                let name_out = crate::model::copy_bytes(&tbl.name);
                                SelectOutcome::NoSuchColumn { column, name: name_out }
                            },
                            None => {
                                let rows = project_rows(&tbl.rows, &columns);
                                let name_out = crate::model::copy_bytes(&tbl.name);
                                SelectOutcome::Selected { name: name_out, columns, rows }
                            },
                        }
                    }
                },
            }
        },
    }
}

/// How one raw `DROP` line parses.
pub ghost enum DropParse {
    /// Fewer than three whitespace tokens, or the second is not `TABLE`.
    Syntax,
    /// The name of the table to remove; everything after the second
    /// space, exactly as written.
    Parsed { name: Seq<u8> },
}

/// Parses `DROP TABLE <name>`: split the trimmed line into at most
/// three space-delimited tokens and ask the second to be `TABLE`
/// whatever its case; the third is the name.
pub open spec fn parse_drop(raw: Seq<u8>) -> DropParse {
    let t = trim(raw);
    match index_of(t, 32) {
        Option::None => DropParse::Syntax,
        Option::Some(i1) => {
            let rest1 = t.subrange(i1 + 1, t.len() as int);
            match index_of(rest1, 32) {
                Option::None => DropParse::Syntax,
                Option::Some(i2) => {
                    let tok1 = rest1.subrange(0, i2);
                    let name = rest1.subrange(i2 + 1, rest1.len() as int);
                    if lower(tok1) != kw_table() {
                        DropParse::Syntax
                    } else {
                        DropParse::Parsed { name }
                    }
                },
            }
        },
    }
}

/// What a `DROP` reports.
#[derive(Debug, PartialEq, Eq)]
pub enum DropOutcome {
    /// The table was removed; carries its name.
    Dropped(Vec<u8>),
    SyntaxError,
    /// No table of that name; carries the name looked up.
    NoSuchTable(Vec<u8>),
}

/// The mathematical shape of a `DROP` report.
pub ghost enum DropView {
    Dropped(Seq<u8>),
    Syntax,
    NoSuchTable(Seq<u8>),
}

impl View for DropOutcome {
    type V = DropView;

    open spec fn view(&self) -> DropView {
        match self {
            DropOutcome::Dropped(name) => DropView::Dropped(name@),
            DropOutcome::SyntaxError => DropView::Syntax,
            DropOutcome::NoSuchTable(name) => DropView::NoSuchTable(name@),
        }
    }
}

/// The store after one `DROP` line, and its report. A well-formed
/// `DROP` of a known table removes exactly that table; every other
/// line leaves the store as it was.
pub open spec fn apply_drop(db: Map<Seq<u8>, TableView>, raw: Seq<u8>) -> (Map<
    Seq<u8>,
    TableView,
>, DropView) {
    match parse_drop(raw) {
        DropParse::Syntax => (db, DropView::Syntax),
        DropParse::Parsed { name } => if db.contains_key(name) {
            (db.remove(name), DropView::Dropped(name))
        } else {
            (db, DropView::NoSuchTable(name))
        },
    }
}

/// Executes one `DROP` line against the store.
pub fn drop_table(cmd: &[u8], store: &mut Store) -> (r: DropOutcome)
    requires
        old(store).wf(),
    ensures
        final(store).wf(),
        final(store)@ == apply_drop(old(store)@, cmd@).0,
        r@ == apply_drop(old(store)@, cmd@).1,
{
    let t = trim_bytes(cmd);
    match find_byte(t.as_slice(), 32) {
        None => DropOutcome::SyntaxError,
        Some(i1) => {
            proof {
                lemma_index_of(t@, 32);
                assert(i1 < t@.len());
            }
            let rest1 = copy_range(t.as_slice(), i1 + 1, t.len());
            match find_byte(rest1.as_slice(), 32) {
                None => DropOutcome::SyntaxError,
                Some(i2) => {
                    proof {
                        lemma_index_of(rest1@, 32);
                    }
                    let tok1 = copy_range(rest1.as_slice(), 0, i2);
                    let name = copy_range(rest1.as_slice(), i2 + 1, rest1.len());
                    let ltok = lower_bytes(tok1.as_slice());
                    if !bytes_eq(ltok.as_slice(), kw_table_vec().as_slice()) {
                        DropOutcome::SyntaxError
                    } else {
                        let had = store.remove_table(name.as_slice());
                        if had {
                            DropOutcome::Dropped(name)
                        } else {
                            proof {
                                assert(store@ =~= old(store)@);
                            }
                            DropOutcome::NoSuchTable(name)
                        }
                    }
                },
            }
        },
    }
}

/// What the dispatcher reports for one classified statement.
#[derive(Debug, PartialEq, Eq)]
pub enum Response {
    Help,
    Exit,
    CreateRes(CreateOutcome),
    InsertRes(InsertOutcome),
    SelectRes(SelectOutcome),
    DropRes(DropOutcome),
}

/// The mathematical shape of a dispatcher report.
pub ghost enum ResponseView {
    Help,
    Exit,
    CreateRes(CreateView),
    InsertRes(InsertView),
    SelectRes(SelectView),
    DropRes(DropView),
}

impl View for Response {
    type V = ResponseView;

    open spec fn view(&self) -> ResponseView {
        match self {
            Response::Help => ResponseView::Help,
            Response::Exit => ResponseView::Exit,
            Response::CreateRes(o) => ResponseView::CreateRes(o@),
            Response::InsertRes(o) => ResponseView::InsertRes(o@),
            Response::SelectRes(o) => ResponseView::SelectRes(o@),
            Response::DropRes(o) => ResponseView::DropRes(o@),
        }
    }
}

/// The store after one classified statement, and its report. `Help`
/// and `Exit` touch nothing; each statement acts as its own executor
/// says.
pub open spec fn apply_command(db: Map<Seq<u8>, TableView>, c: crate::command::CommandView) -> (
    Map<Seq<u8>, TableView>,
    ResponseView,
) {
    match c {
        crate::command::CommandView::Help => (db, ResponseView::Help),
        crate::command::CommandView::Exit => (db, ResponseView::Exit),
        crate::command::CommandView::Create(raw) => (
            apply_create(db, raw).0,
            ResponseView::CreateRes(apply_create(db, raw).1),
        ),
        crate::command::CommandView::Insert(raw) => (
            apply_insert(db, raw).0,
            ResponseView::InsertRes(apply_insert(db, raw).1),
        ),
        crate::command::CommandView::Select(raw) => (
            db,
            ResponseView::SelectRes(select_result(db, raw)),
        ),
        crate::command::CommandView::Drop(raw) => (
            apply_drop(db, raw).0,
            ResponseView::DropRes(apply_drop(db, raw).1),
        ),
    }
}

/// Dispatches one classified statement to its executor.
pub fn exec_command(c: Command, store: &mut Store) -> (r: Response)
    requires
        old(store).wf(),
    ensures
        final(store).wf(),
        final(store)@ == apply_command(old(store)@, c@).0,
        r@ == apply_command(old(store)@, c@).1,
{
    match c {
        Command::Help => Response::Help,
        Command::Exit => Response::Exit,
        Command::Create(raw) => Response::CreateRes(handle_create(raw.as_slice(), store)),
        Command::Insert(raw) => Response::InsertRes(handle_insert(raw.as_slice(), store)),
        Command::Select(raw) => Response::SelectRes(select_table(raw.as_slice(), store)),
        Command::Drop(raw) => Response::DropRes(drop_table(raw.as_slice(), store)),
    }
}

} // verus!
