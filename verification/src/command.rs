//! The statement classifier: one raw input line becomes a tagged
//! statement carrying the trimmed original text, or a terminal signal.
//! Keyword matching lower-cases a copy; the forwarded text keeps its
//! original case.

use vstd::prelude::*;
use vstd::string::StringSliceAdditionalSpecFns;
use crate::text::{trim, lower, has_prefix, trim_bytes, lower_bytes, bytes_eq, bytes_starts_with};

verus! {

/// The keyword `help`.
pub open spec fn kw_help() -> Seq<u8> {
    seq![104u8, 101u8, 108u8, 112u8]
}

/// The keyword `exit`.
pub open spec fn kw_exit() -> Seq<u8> {
    seq![101u8, 120u8, 105u8, 116u8]
}

/// The keyword `create`.
pub open spec fn kw_create() -> Seq<u8> {
    seq![99u8, 114u8, 101u8, 97u8, 116u8, 101u8]
}

/// The keyword `insert`.
pub open spec fn kw_insert() -> Seq<u8> {
    seq![105u8, 110u8, 115u8, 101u8, 114u8, 116u8]
}

/// The keyword `select`.
pub open spec fn kw_select() -> Seq<u8> {
    seq![115u8, 101u8, 108u8, 101u8, 99u8, 116u8]
}

/// The keyword `select` followed by one space.
pub open spec fn kw_select_sp() -> Seq<u8> {
    kw_select().push(32u8)
}

/// The keyword `drop`.
pub open spec fn kw_drop() -> Seq<u8> {
    seq![100u8, 114u8, 111u8, 112u8]
}

/// The keyword `table`.
pub open spec fn kw_table() -> Seq<u8> {
    seq![116u8, 97u8, 98u8, 108u8, 101u8]
}

/// The keyword `into`.
pub open spec fn kw_into() -> Seq<u8> {
    seq![105u8, 110u8, 116u8, 111u8]
}

/// The keyword `values`.
pub open spec fn kw_values() -> Seq<u8> {
    seq![118u8, 97u8, 108u8, 117u8, 101u8, 115u8]
}

/// The sentinel printed for a missing cell: `NULL`.
pub open spec fn null_value() -> Seq<u8> {
    seq![78u8, 85u8, 76u8, 76u8]
}

/// The projection marker `*`.
pub open spec fn star() -> Seq<u8> {
    seq![42u8]
}

/// `help` as runtime bytes.
pub fn kw_help_vec() -> (r: Vec<u8>)
    ensures
        r@ == kw_help(),
{
    let mut v: Vec<u8> = Vec::new();
    v.push(104);
    v.push(101);
    v.push(108);
    v.push(112);
    proof {
        assert(v@ =~= kw_help());
    }
    v
}

/// `exit` as runtime bytes.
pub fn kw_exit_vec() -> (r: Vec<u8>)
    ensures
        r@ == kw_exit(),
{
    let mut v: Vec<u8> = Vec::new();
    v.push(101);
    v.push(120);
    v.push(105);
    v.push(116);
    proof {
        assert(v@ =~= kw_exit());
    }
    v
}

/// `create` as runtime bytes.
pub fn kw_create_vec() -> (r: Vec<u8>)
    ensures
        r@ == kw_create(),
{
    let mut v: Vec<u8> = Vec::new();
    v.push(99);
    v.push(114);
    v.push(101);
    v.push(97);
    v.push(116);
    v.push(101);
    proof {
        assert(v@ =~= kw_create());
    }
    v
}

/// `insert` as runtime bytes.
pub fn kw_insert_vec() -> (r: Vec<u8>)
    ensures
        r@ == kw_insert(),
{
    let mut v: Vec<u8> = Vec::new();
    v.push(105);
    v.push(110);
    v.push(115);
    v.push(101);
    v.push(114);
    v.push(116);
    proof {
        assert(v@ =~= kw_insert());
    }
    v
}

/// `select` as runtime bytes.
pub fn kw_select_vec() -> (r: Vec<u8>)
    ensures
        r@ == kw_select(),
{
    let mut v: Vec<u8> = Vec::new();
    v.push(115);
    v.push(101);
    v.push(108);
    v.push(101);
    v.push(99);
    v.push(116);
    proof {
        assert(v@ =~= kw_select());
    }
    v
}

/// `select ` (with its trailing space) as runtime bytes.
pub fn kw_select_sp_vec() -> (r: Vec<u8>)
    ensures
        r@ == kw_select_sp(),
{
    let mut v = kw_select_vec();
    v.push(32);
    v
}

/// `drop` as runtime bytes.
pub fn kw_drop_vec() -> (r: Vec<u8>)
    ensures
        r@ == kw_drop(),
{
    let mut v: Vec<u8> = Vec::new();
    v.push(100);
    v.push(114);
    v.push(111);
    v.push(112);
    proof {
        assert(v@ =~= kw_drop());
    }
    v
}

/// `table` as runtime bytes.
pub fn kw_table_vec() -> (r: Vec<u8>)
    ensures
        r@ == kw_table(),
{
    let mut v: Vec<u8> = Vec::new();
    v.push(116);
    v.push(97);
    v.push(98);
    v.push(108);
    v.push(101);
    proof {
        assert(v@ =~= kw_table());
    }
    v
}

/// `into` as runtime bytes.
pub fn kw_into_vec() -> (r: Vec<u8>)
    ensures
        r@ == kw_into(),
{
    let mut v: Vec<u8> = Vec::new();
    v.push(105);
    v.push(110);
    v.push(116);
    v.push(111);
    proof {
        assert(v@ =~= kw_into());
    }
    v
}

/// `values` as runtime bytes.
pub fn kw_values_vec() -> (r: Vec<u8>)
    ensures
        r@ == kw_values(),
{
    let mut v: Vec<u8> = Vec::new();
    v.push(118);
    v.push(97);
    v.push(108);
    v.push(117);
    v.push(101);
    v.push(115);
    proof {
        assert(v@ =~= kw_values());
    }
    v
}

/// `NULL` as runtime bytes.
pub fn null_value_vec() -> (r: Vec<u8>)
    ensures
        r@ == null_value(),
{
    let mut v: Vec<u8> = Vec::new();
    v.push(78);
    v.push(85);
    v.push(76);
    v.push(76);
    proof {
        assert(v@ =~= null_value());
    }
    v
}

/// One classified statement, carrying the trimmed original line.
#[derive(Debug, PartialEq, Eq)]
pub enum Command {
    Create(Vec<u8>),
    Insert(Vec<u8>),
    Select(Vec<u8>),
    Drop(Vec<u8>),
    Exit,
    Help,
}

/// The mathematical shape of a classified statement.
pub ghost enum CommandView {
    Create(Seq<u8>),
    Insert(Seq<u8>),
    Select(Seq<u8>),
    Drop(Seq<u8>),
    Exit,
    Help,
}

impl View for Command {
    type V = CommandView;

    open spec fn view(&self) -> CommandView {
        match self {
            Command::Create(raw) => CommandView::Create(raw@),
            Command::Insert(raw) => CommandView::Insert(raw@),
            Command::Select(raw) => CommandView::Select(raw@),
            Command::Drop(raw) => CommandView::Drop(raw@),
            Command::Exit => CommandView::Exit,
            Command::Help => CommandView::Help,
        }
    }
}

/// Classifies one raw line: trim it, lower-case a copy for keyword
/// matching, and tag it. `help` and `exit` must match whole; the four
/// statement keywords match as prefixes; anything else falls back to
/// the help signal.
pub open spec fn classify(raw: Seq<u8>) -> CommandView {
    let t = trim(raw);
    let l = lower(t);
    if l == kw_help() {
        CommandView::Help
    } else if l == kw_exit() {
        CommandView::Exit
    } else if has_prefix(l, kw_create()) {
        CommandView::Create(t)
    } else if has_prefix(l, kw_insert()) {
        CommandView::Insert(t)
    } else if has_prefix(l, kw_select()) {
        CommandView::Select(t)
    } else if has_prefix(l, kw_drop()) {
        CommandView::Drop(t)
    } else {
        CommandView::Help
    }
}

/// Classifies one raw line of bytes.
pub fn classify_line(input: &[u8]) -> (c: Command)
    ensures
        c@ == classify(input@),
{
    let t = trim_bytes(input);
    let l = lower_bytes(t.as_slice());
    if bytes_eq(l.as_slice(), kw_help_vec().as_slice()) {
        Command::Help
    } else if bytes_eq(l.as_slice(), kw_exit_vec().as_slice()) {
        Command::Exit
    } else if bytes_starts_with(l.as_slice(), kw_create_vec().as_slice()) {
        Command::Create(t)
    } else if bytes_starts_with(l.as_slice(), kw_insert_vec().as_slice()) {
        Command::Insert(t)
    } else if bytes_starts_with(l.as_slice(), kw_select_vec().as_slice()) {
        Command::Select(t)
    } else if bytes_starts_with(l.as_slice(), kw_drop_vec().as_slice()) {
        Command::Drop(t)
    } else {
        Command::Help
    }
}

/// Classifies one raw input line, as read from the console.
pub fn command_parser(input: &str) -> (c: Command)
    ensures
        c@ == classify(input.spec_bytes()),
{
    classify_line(input.as_bytes())
}

} // verus!
